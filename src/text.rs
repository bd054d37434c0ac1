use vstd::prelude::*;

verus! {

/// Unicode `White_Space` property: the characters that `str::trim` removes.
pub open spec fn is_white(c: char) -> bool {
    ('\u{9}' <= c && c <= '\u{d}') || c == ' ' || c == '\u{85}' || c == '\u{a0}' || c == '\u{1680}'
        || ('\u{2000}' <= c && c <= '\u{200a}') || c == '\u{2028}' || c == '\u{2029}' || c
        == '\u{202f}' || c == '\u{205f}' || c == '\u{3000}'
}

/// A text is blank when every character is whitespace (the empty text is blank).
pub open spec fn blank(s: Seq<char>) -> bool {
    forall|i: int| 0 <= i < s.len() ==> is_white(#[trigger] s[i])
}

/// `s` without its leading whitespace.
pub open spec fn strip_front(s: Seq<char>) -> Seq<char>
    decreases s.len(),
{
    if s.len() > 0 && is_white(s[0]) {
        strip_front(s.drop_first())
    } else {
        s
    }
}

/// `s` without its trailing whitespace.
pub open spec fn strip_back(s: Seq<char>) -> Seq<char>
    decreases s.len(),
{
    if s.len() > 0 && is_white(s.last()) {
        strip_back(s.drop_last())
    } else {
        s
    }
}

/// `s` without leading and trailing whitespace.
pub open spec fn trim_seq(s: Seq<char>) -> Seq<char> {
    strip_back(strip_front(s))
}

/// Normal form of an optional attribute-set text: trimmed, and absent when
/// nothing but whitespace was given.
pub open spec fn attr_norm(t: Option<Seq<char>>) -> Option<Seq<char>> {
    match t {
        Some(s) => if trim_seq(s).len() == 0 {
            None
        } else {
            Some(trim_seq(s))
        },
        None => None,
    }
}

pub open spec fn opt_view(o: Option<String>) -> Option<Seq<char>> {
    match o {
        Some(s) => Some(s@),
        None => None,
    }
}

proof fn lemma_strip_front_blank(s: Seq<char>)
    ensures
        strip_front(s).len() == 0 <==> blank(s),
        strip_front(s).len() > 0 ==> !is_white(strip_front(s)[0]),
    decreases s.len(),
{
    if s.len() > 0 && is_white(s[0]) {
        lemma_strip_front_blank(s.drop_first());
        if blank(s.drop_first()) {
            assert forall|i: int| 0 <= i < s.len() implies is_white(#[trigger] s[i]) by {
                if i > 0 {
                    assert(s[i] == s.drop_first()[i - 1]);
                }
            }
        }
        if blank(s) {
            assert forall|i: int| 0 <= i < s.drop_first().len() implies is_white(
                #[trigger] s.drop_first()[i],
            ) by {
                assert(s.drop_first()[i] == s[i + 1]);
            }
        }
    } else if s.len() > 0 {
        assert(!is_white(s[0]));
    }
}

proof fn lemma_strip_back_keeps_first(s: Seq<char>)
    requires
        s.len() > 0,
        !is_white(s[0]),
    ensures
        strip_back(s).len() > 0,
    decreases s.len(),
{
    if is_white(s.last()) {
        assert(s.len() > 1);
        assert(s.drop_last()[0] == s[0]);
        lemma_strip_back_keeps_first(s.drop_last());
    }
}

/// The trimmed text is empty exactly when the text is blank.
pub proof fn lemma_trim_empty_iff_blank(s: Seq<char>)
    ensures
        trim_seq(s).len() == 0 <==> blank(s),
{
    lemma_strip_front_blank(s);
    if strip_front(s).len() > 0 {
        lemma_strip_back_keeps_first(strip_front(s));
    }
}

/// A blank attribute-set text is stored as absent, exactly as a missing one;
/// any other text is stored trimmed.
pub proof fn lemma_blank_attr_is_absent(s: Seq<char>)
    ensures
        blank(s) <==> attr_norm(Some(s)) == attr_norm(None),
        attr_norm(None) == None::<Seq<char>>,
        !blank(s) ==> attr_norm(Some(s)) == Some(trim_seq(s)),
{
    lemma_trim_empty_iff_blank(s);
}

/// Relies on `str::trim`: removes leading and trailing characters with the
/// Unicode `White_Space` property.
#[verifier::external_body]
fn trim_text(s: &str) -> (r: String)
    ensures
        r@ == trim_seq(s@),
{
    s.trim().to_string()
}

/// Normalizes an optional attribute-set field: surrounding whitespace is
/// removed, and a missing or blank value becomes `None`.
pub fn normalize_attr(t: &Option<String>) -> (r: Option<String>)
    ensures
        opt_view(r) == attr_norm(opt_view(*t)),
{
    match t {
        Some(s) => {
            let trimmed = trim_text(s.as_str());
            if trimmed.as_str().is_empty() {
                None
            } else {
                Some(trimmed)
            }
        },
        None => None,
    }
}

} // verus!
