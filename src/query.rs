use crate::text::opt_view;
use vstd::prelude::*;

verus! {

/// One result of a lookup, flattened from the normalized tables.
pub struct ResultRow {
    pub term: String,
    pub reading: String,
    pub def_tags: String,
    pub rules: String,
    pub score: i64,
    /// The glossary payload as JSON text.
    pub glossary: String,
    pub sequence: Option<i64>,
    pub term_tags: String,
    /// Title of the dictionary the term belongs to.
    pub dictionary: String,
}

/// The text of an optional attribute set; an absent one reads as empty.
pub open spec fn or_empty(o: Option<Seq<char>>) -> Seq<char> {
    match o {
        Some(s) => s,
        None => Seq::empty(),
    }
}

fn text_or_empty(o: Option<String>) -> (r: String)
    ensures
        r@ == or_empty(opt_view(o)),
{
    match o {
        Some(s) => s,
        None => String::new(),
    }
}

impl ResultRow {
    /// Builds a row from the joined columns; attribute sets that the term
    /// does not reference come out as empty texts.
    pub fn from_columns(
        term: String,
        reading: String,
        def_tags: Option<String>,
        rules: Option<String>,
        score: i64,
        glossary: String,
        sequence: Option<i64>,
        term_tags: Option<String>,
        dictionary: String,
    ) -> (r: ResultRow)
        ensures
            r.term@ == term@,
            r.reading@ == reading@,
            r.def_tags@ == or_empty(opt_view(def_tags)),
            r.rules@ == or_empty(opt_view(rules)),
            r.score == score,
            r.glossary@ == glossary@,
            r.sequence == sequence,
            r.term_tags@ == or_empty(opt_view(term_tags)),
            r.dictionary@ == dictionary@,
    {
        ResultRow {
            term,
            reading,
            def_tags: text_or_empty(def_tags),
            rules: text_or_empty(rules),
            score,
            glossary,
            sequence,
            term_tags: text_or_empty(term_tags),
            dictionary,
        }
    }
}

pub open spec fn min(a: int, b: int) -> int {
    if a <= b {
        a
    } else {
        b
    }
}

/// The page of `s` that skips `offset` items and keeps at most `limit`.
pub open spec fn page_of<T>(s: Seq<T>, limit: int, offset: int) -> Seq<T> {
    s.subrange(min(offset, s.len() as int), min(offset + limit, s.len() as int))
}

/// Scores never increase along `rows`.
pub open spec fn by_score_desc(rows: Seq<ResultRow>) -> bool {
    forall|i: int, j: int| 0 <= i <= j < rows.len() ==> #[trigger] rows[i].score >= #[trigger] rows[j].score
}

/// Skips `offset` rows and keeps at most `limit` of the rest, in order.
pub fn page<T>(rows: Vec<T>, limit: usize, offset: usize) -> (r: Vec<T>)
    ensures
        r@ == page_of(rows@, limit as int, offset as int),
{
    let mut head = rows;
    let start = if offset <= head.len() {
        offset
    } else {
        head.len()
    };
    let mut rest = head.split_off(start);
    rest.truncate(limit);
    proof {
        assert(rest@ =~= page_of(rows@, limit as int, offset as int));
    }
    rest
}

/// Consecutive pages of one size neither overlap nor leave a gap: together
/// they are the page of twice the size.
pub proof fn lemma_consecutive_pages<T>(s: Seq<T>, limit: int, offset: int)
    requires
        limit >= 0,
        offset >= 0,
    ensures
        page_of(s, limit, offset) + page_of(s, limit, offset + limit) =~= page_of(s, 2 * limit, offset),
        page_of(s, limit, offset).len() + page_of(s, limit, offset + limit).len() == min(
            s.len() as int - min(offset, s.len() as int),
            2 * limit,
        ),
{
}

/// A page of rows ordered by descending score is ordered so too.
pub proof fn lemma_page_keeps_order(rows: Seq<ResultRow>, limit: int, offset: int)
    requires
        limit >= 0,
        offset >= 0,
        by_score_desc(rows),
    ensures
        by_score_desc(page_of(rows, limit, offset)),
{
    let p = page_of(rows, limit, offset);
    let a = min(offset, rows.len() as int);
    assert forall|i: int, j: int| 0 <= i <= j < p.len() implies #[trigger] p[i].score >= #[trigger] p[j].score by {
        assert(p[i] == rows[a + i]);
        assert(p[j] == rows[a + j]);
    }
}

} // verus!
