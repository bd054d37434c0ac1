use vstd::prelude::*;
use vstd::string::to_string_from_display_ensures_for_str;

verus! {

broadcast use to_string_from_display_ensures_for_str;

/// The fields of an archive's `index.json` that the import reads.
pub struct Manifest {
    pub title: Option<String>,
    pub revision: Option<String>,
    pub author: Option<String>,
    pub url: Option<String>,
    pub description: Option<String>,
}

/// The key under which a dictionary revision is installed.
pub struct DictKey {
    pub title: String,
    pub revision: String,
}

/// What to do with one archive.
#[derive(PartialEq, Eq, Structural, Debug, Clone, Copy)]
pub enum ArchiveAction {
    /// The archive has no `index.json`: it is passed over silently.
    SkipNoIndex,
    /// This title and revision are installed already: nothing is written.
    SkipInstalled,
    /// Import it.
    Import,
}

/// Why importing an archive failed.
#[derive(PartialEq, Eq, Debug, Clone)]
pub enum ImportError {
    /// The manifest has no string `title`.
    MissingTitle,
    /// The manifest has no string `revision`.
    MissingRevision,
    /// A file could not be read.
    Io(String),
    /// A member file is not the JSON that its family requires.
    Malformed(String),
    /// The store refused a statement or a transaction.
    Store(String),
}

impl ImportError {
    /// A description for the caller; for the errors that carry one, the
    /// underlying message itself.
    pub fn message(&self) -> (r: String)
        ensures
            match self {
                ImportError::Io(m) => r@ == m@,
                ImportError::Malformed(m) => r@ == m@,
                ImportError::Store(m) => r@ == m@,
                _ => r@.len() > 0,
            },
    {
        match self {
            ImportError::MissingTitle => {
                let r = "index.json has no title".to_string();
                proof {
                    reveal_strlit("index.json has no title");
                }
                r
            },
            ImportError::MissingRevision => {
                let r = "index.json has no revision".to_string();
                proof {
                    reveal_strlit("index.json has no revision");
                }
                r
            },
            ImportError::Io(m) => m.clone(),
            ImportError::Malformed(m) => m.clone(),
            ImportError::Store(m) => m.clone(),
        }
    }
}

pub open spec fn key_view(k: DictKey) -> (Seq<char>, Seq<char>) {
    (k.title@, k.revision@)
}

/// The installed (title, revision) pairs.
pub open spec fn keys_view(ks: Seq<DictKey>) -> Seq<(Seq<char>, Seq<char>)> {
    ks.map_values(|k: DictKey| key_view(k))
}

/// The decision for an archive whose manifest is `index` (absent when the
/// archive has no `index.json`), given the installed keys.
pub open spec fn action_of(index: Option<Manifest>, installed: Seq<(Seq<char>, Seq<char>)>) -> Result<
    ArchiveAction,
    ImportError,
> {
    match index {
        None => Ok(ArchiveAction::SkipNoIndex),
        Some(m) => match (m.title, m.revision) {
            (None, _) => Err(ImportError::MissingTitle),
            (Some(_), None) => Err(ImportError::MissingRevision),
            (Some(t), Some(r)) => if installed.contains((t@, r@)) {
                Ok(ArchiveAction::SkipInstalled)
            } else {
                Ok(ArchiveAction::Import)
            },
        },
    }
}

/// Whether `title` and `revision` are among the installed keys.
pub fn is_installed(installed: &Vec<DictKey>, title: &String, revision: &String) -> (r: bool)
    ensures
        r == keys_view(installed@).contains((title@, revision@)),
{
    let mut i: usize = 0;
    while i < installed.len()
        invariant
            0 <= i <= installed@.len(),
            forall|j: int| 0 <= j < i ==> #[trigger] keys_view(installed@)[j] != (title@, revision@),
        decreases installed@.len() - i,
    {
        if installed[i].title == *title && installed[i].revision == *revision {
            proof {
                assert(keys_view(installed@)[i as int] == (title@, revision@));
            }
            return true;
        }
        i = i + 1;
    }
    proof {
        assert forall|j: int| 0 <= j < keys_view(installed@).len() implies keys_view(installed@)[j] != (
        title@,
        revision@,
        ) by {}
    }
    false
}

/// Decides what to do with an archive: skip it when it has no `index.json`
/// or when its title and revision are installed already, fail when the
/// manifest lacks `title` or `revision`, import it otherwise.
pub fn plan_archive(index: &Option<Manifest>, installed: &Vec<DictKey>) -> (r: Result<
    ArchiveAction,
    ImportError,
>)
    ensures
        r == action_of(*index, keys_view(installed@)),
{
    match index {
        None => Ok(ArchiveAction::SkipNoIndex),
        Some(m) => match (&m.title, &m.revision) {
            (None, _) => Err(ImportError::MissingTitle),
            (Some(_), None) => Err(ImportError::MissingRevision),
            (Some(t), Some(r)) => if is_installed(installed, t, r) {
                Ok(ArchiveAction::SkipInstalled)
            } else {
                Ok(ArchiveAction::Import)
            },
        },
    }
}

/// Importing is idempotent: once an archive's key is recorded as installed,
/// the same archive is skipped, so a second run writes nothing.
pub proof fn lemma_reimport_is_skipped(m: Manifest, installed: Seq<(Seq<char>, Seq<char>)>)
    requires
        action_of(Some(m), installed) == Ok::<ArchiveAction, ImportError>(ArchiveAction::Import),
    ensures
        action_of(Some(m), installed.push((m.title.unwrap()@, m.revision.unwrap()@))) == Ok::<
            ArchiveAction,
            ImportError,
        >(ArchiveAction::SkipInstalled),
{
    let k = (m.title.unwrap()@, m.revision.unwrap()@);
    assert(installed.push(k)[installed.len() as int] == k);
}

/// An archive without `index.json` is skipped without error, whatever is installed.
pub proof fn lemma_missing_index_is_skipped(installed: Seq<(Seq<char>, Seq<char>)>)
    ensures
        action_of(None, installed) == Ok::<ArchiveAction, ImportError>(ArchiveAction::SkipNoIndex),
{
}

} // verus!
