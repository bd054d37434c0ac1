use crate::intern::Interner;
use crate::record::{Field, TermRecord, int_at, int_or_zero, json_at, text_at, text_or_empty};
use crate::text::{attr_norm, opt_view};
use sha1::{Digest, Sha1};
use vstd::prelude::*;

verus! {

/// Lower-case hexadecimal SHA-1 digest of the UTF-8 encoding of a text.
pub uninterp spec fn sha1_hex_of(s: Seq<char>) -> Seq<char>;

/// Relies on `sha1::Sha1::digest` and the `LowerHex` formatting of its
/// output: the SHA-1 digest of the text's bytes, as hexadecimal digits.
#[verifier::external_body]
fn sha1_hex(s: &str) -> (r: String)
    ensures
        r@ == sha1_hex_of(s@),
{
    format!("{:x}", Sha1::digest(s.as_bytes()))
}

/// A term row ready to be stored: attribute sets and glossary are given by
/// their ids in the plan's interners.
pub struct PlannedTerm {
    /// Number of the term bank file the record came from.
    pub bank: usize,
    pub term: String,
    pub reading: String,
    pub def_tags: Option<usize>,
    pub rules: Option<usize>,
    pub score: i64,
    pub glossary: usize,
    pub sequence: Option<i64>,
    pub term_tags: Option<usize>,
}

/// The store's ids for the plan's interned contents, by plan id.
pub struct StoreIds {
    pub glossaries: Vec<i64>,
    pub def_tags: Vec<i64>,
    pub rules: Vec<i64>,
    pub term_tags: Vec<i64>,
}

/// A row of the `terms` table, with the store's ids.
pub struct TermRow {
    pub dict_id: i64,
    pub term: String,
    pub reading: String,
    pub def_tags_id: Option<i64>,
    pub rules_id: Option<i64>,
    pub score: i64,
    pub glossary_id: i64,
    pub sequence: Option<i64>,
    pub term_tags_id: Option<i64>,
}

/// The store id of an optional plan id; an absent reference stays absent.
pub open spec fn store_id(ids: Seq<i64>, id: Option<usize>) -> Option<i64> {
    match id {
        Some(d) => Some(ids[d as int]),
        None => None,
    }
}

fn map_id(ids: &Vec<i64>, id: Option<usize>) -> (r: Option<i64>)
    requires
        match id {
            Some(d) => d < ids@.len(),
            None => true,
        },
    ensures
        r == store_id(ids@, id),
{
    match id {
        Some(d) => Some(ids[d]),
        None => None,
    }
}

/// The rows that the term banks of one archive produce. Glossary payloads
/// and attribute sets are interned: each distinct content is stored once and
/// every term refers to it by id.
pub struct TermPlan {
    pub glossaries: Interner,
    /// SHA-1 of each glossary payload, by glossary id.
    pub glossary_hashes: Vec<String>,
    pub def_tags: Interner,
    pub rules: Interner,
    pub term_tags: Interner,
    pub terms: Vec<PlannedTerm>,
}

/// The text an optional id refers to.
pub open spec fn attr_of(i: Interner, id: Option<usize>) -> Option<Seq<char>> {
    match id {
        Some(d) => Some(i.view()[d as int]),
        None => None,
    }
}

pub open spec fn attr_id_ok(i: Interner, id: Option<usize>) -> bool {
    match id {
        Some(d) => d < i.view().len(),
        None => true,
    }
}

/// Some entry of `ids` is `d`.
pub open spec fn id_used(ids: Seq<Option<usize>>, d: int) -> bool {
    exists|k: int| 0 <= k < ids.len() && ids[k] == Some(d as usize)
}

/// Every id of the interner is used by some term.
pub open spec fn all_used(i: Interner, ids: Seq<Option<usize>>) -> bool {
    forall|d: int| 0 <= d < i.view().len() ==> #[trigger] id_used(ids, d)
}

/// Some term of `ts` refers to glossary `g`.
pub open spec fn glossary_used(ts: Seq<PlannedTerm>, g: int) -> bool {
    exists|k: int| 0 <= k < ts.len() && ts[k].glossary == g
}

impl TermPlan {
    pub open spec fn def_ids(&self) -> Seq<Option<usize>> {
        self.terms@.map_values(|t: PlannedTerm| t.def_tags)
    }

    pub open spec fn rule_ids(&self) -> Seq<Option<usize>> {
        self.terms@.map_values(|t: PlannedTerm| t.rules)
    }

    pub open spec fn term_tag_ids(&self) -> Seq<Option<usize>> {
        self.terms@.map_values(|t: PlannedTerm| t.term_tags)
    }

    /// Glossary payload of the `k`-th term.
    pub open spec fn glossary_of(&self, k: int) -> Seq<char> {
        self.glossaries.view()[self.terms@[k].glossary as int]
    }

    pub open spec fn wf(&self) -> bool {
        &&& self.glossaries.wf()
        &&& self.def_tags.wf()
        &&& self.rules.wf()
        &&& self.term_tags.wf()
        &&& self.glossary_hashes@.len() == self.glossaries.view().len()
        &&& forall|g: int|
            0 <= g < self.glossary_hashes@.len() ==> #[trigger] self.glossary_hashes@[g]@
                == sha1_hex_of(self.glossaries.view()[g])
        &&& forall|k: int|
            0 <= k < self.terms@.len() ==> {
                let t = #[trigger] self.terms@[k];
                &&& t.glossary < self.glossaries.view().len()
                &&& attr_id_ok(self.def_tags, t.def_tags)
                &&& attr_id_ok(self.rules, t.rules)
                &&& attr_id_ok(self.term_tags, t.term_tags)
            }
        &&& forall|g: int|
            0 <= g < self.glossaries.view().len() ==> #[trigger] glossary_used(self.terms@, g)
        &&& all_used(self.def_tags, self.def_ids())
        &&& all_used(self.rules, self.rule_ids())
        &&& all_used(self.term_tags, self.term_tag_ids())
        &&& self.glossaries.view().len() <= self.terms@.len()
        &&& self.def_tags.view().len() <= self.terms@.len()
        &&& self.rules.view().len() <= self.terms@.len()
        &&& self.term_tags.view().len() <= self.terms@.len()
    }

    /// `ids` holds one store id for each interned content of the plan.
    pub open spec fn ids_fit(&self, ids: &StoreIds) -> bool {
        &&& ids.glossaries@.len() == self.glossaries.view().len()
        &&& ids.def_tags@.len() == self.def_tags.view().len()
        &&& ids.rules@.len() == self.rules.view().len()
        &&& ids.term_tags@.len() == self.term_tags.view().len()
    }

    /// The `terms` row of the `k`-th term of dictionary `dict_id`.
    pub fn store_row(&self, k: usize, dict_id: i64, ids: &StoreIds) -> (r: TermRow)
        requires
            self.wf(),
            self.ids_fit(ids),
            k < self.terms@.len(),
        ensures
            r.dict_id == dict_id,
            r.term@ == self.terms@[k as int].term@,
            r.reading@ == self.terms@[k as int].reading@,
            r.def_tags_id == store_id(ids.def_tags@, self.terms@[k as int].def_tags),
            r.rules_id == store_id(ids.rules@, self.terms@[k as int].rules),
            r.score == self.terms@[k as int].score,
            r.glossary_id == ids.glossaries@[self.terms@[k as int].glossary as int],
            r.sequence == self.terms@[k as int].sequence,
            r.term_tags_id == store_id(ids.term_tags@, self.terms@[k as int].term_tags),
    {
        let t = &self.terms[k];
        proof {
            assert(self.terms@[k as int].glossary < self.glossaries.view().len());
            assert(attr_id_ok(self.def_tags, self.terms@[k as int].def_tags));
        }
        TermRow {
            dict_id,
            term: t.term.clone(),
            reading: t.reading.clone(),
            def_tags_id: map_id(&ids.def_tags, t.def_tags),
            rules_id: map_id(&ids.rules, t.rules),
            score: t.score,
            glossary_id: ids.glossaries[t.glossary],
            sequence: t.sequence,
            term_tags_id: map_id(&ids.term_tags, t.term_tags),
        }
    }

    /// Stored rows of terms with equal glossary payloads refer to the same
    /// glossary row; when the store's ids are distinct, rows of terms with
    /// different payloads refer to different glossary rows.
    pub proof fn lemma_rows_share_glossary(&self, ids: &StoreIds, k1: int, k2: int)
        requires
            self.wf(),
            self.ids_fit(ids),
            0 <= k1 < self.terms@.len(),
            0 <= k2 < self.terms@.len(),
        ensures
            self.glossary_of(k1) == self.glossary_of(k2) ==> ids.glossaries@[self.terms@[k1].glossary as int]
                == ids.glossaries@[self.terms@[k2].glossary as int],
            ids.glossaries@.no_duplicates() ==> (self.glossary_of(k1) == self.glossary_of(k2) <==> ids.glossaries@[
                self.terms@[k1].glossary as int] == ids.glossaries@[self.terms@[k2].glossary as int]),
    {
        self.lemma_glossaries_deduplicated();
        assert(self.glossary_of(k1) == self.glossary_of(k2) <==> self.terms@[k1].glossary == self.terms@[k2].glossary);
        assert(self.terms@[k1].glossary < self.glossaries.view().len());
        assert(self.terms@[k2].glossary < self.glossaries.view().len());
    }

    /// The distinct glossary payloads of the plan's terms.
    pub open spec fn glossary_contents(&self) -> Set<Seq<char>> {
        Set::new(|c: Seq<char>| exists|k: int| 0 <= k < self.terms@.len() && #[trigger] self.glossary_of(k) == c)
    }

    /// Two terms refer to the same glossary exactly when their payloads are
    /// equal, and there are as many glossaries as distinct payloads.
    pub proof fn lemma_glossaries_deduplicated(&self)
        requires
            self.wf(),
        ensures
            forall|k1: int, k2: int|
                0 <= k1 < self.terms@.len() && 0 <= k2 < self.terms@.len() ==> (#[trigger] self.glossary_of(k1)
                    == #[trigger] self.glossary_of(k2) <==> self.terms@[k1].glossary == self.terms@[k2].glossary),
            self.glossaries.view().len() == self.glossary_contents().len(),
    {
        let ids = self.terms@.map_values(|t: PlannedTerm| Some(t.glossary));
        assert forall|k: int| 0 <= k < ids.len() implies attr_id_ok(self.glossaries, #[trigger] ids[k]) by {
            assert(self.terms@[k].glossary < self.glossaries.view().len());
        }
        assert forall|g: int| 0 <= g < self.glossaries.view().len() implies #[trigger] id_used(ids, g) by {
            assert(glossary_used(self.terms@, g));
            let k = choose|k: int| 0 <= k < self.terms@.len() && self.terms@[k].glossary == g;
            assert(ids[k] == Some(g as usize));
        }
        lemma_attr_dedup(self.glossaries, ids);
        assert forall|k1: int, k2: int|
            0 <= k1 < self.terms@.len() && 0 <= k2 < self.terms@.len() implies (#[trigger] self.glossary_of(k1)
            == #[trigger] self.glossary_of(k2) <==> self.terms@[k1].glossary == self.terms@[k2].glossary) by {
            assert(attr_of(self.glossaries, ids[k1]) == Some(self.glossary_of(k1)));
            assert(attr_of(self.glossaries, ids[k2]) == Some(self.glossary_of(k2)));
        }
        assert forall|c: Seq<char>| self.glossary_contents().contains(c) <==> attr_contents(self.glossaries, ids).contains(c) by {
            if self.glossary_contents().contains(c) {
                let k = choose|k: int| 0 <= k < self.terms@.len() && #[trigger] self.glossary_of(k) == c;
                assert(attr_of(self.glossaries, ids[k]) == Some(c));
            }
            if attr_contents(self.glossaries, ids).contains(c) {
                let k = choose|k: int| 0 <= k < ids.len() && #[trigger] attr_of(self.glossaries, ids[k]) == Some(c);
                assert(self.glossary_of(k) == c);
            }
        }
        assert(self.glossary_contents() =~= attr_contents(self.glossaries, ids));
    }

    /// For each of the three attribute-set tables: two terms refer to the
    /// same row exactly when their texts are equal, and the table holds one
    /// row per distinct text, however often it occurs.
    pub proof fn lemma_attribute_sets_deduplicated(&self)
        requires
            self.wf(),
        ensures
            forall|k1: int, k2: int|
                0 <= k1 < self.terms@.len() && 0 <= k2 < self.terms@.len() ==> {
                    &&& (attr_of(self.def_tags, #[trigger] self.terms@[k1].def_tags) == attr_of(self.def_tags, #[trigger] self.terms@[k2].def_tags)
                        <==> self.terms@[k1].def_tags == self.terms@[k2].def_tags)
                    &&& (attr_of(self.rules, self.terms@[k1].rules) == attr_of(self.rules, self.terms@[k2].rules)
                        <==> self.terms@[k1].rules == self.terms@[k2].rules)
                    &&& (attr_of(self.term_tags, self.terms@[k1].term_tags) == attr_of(self.term_tags, self.terms@[k2].term_tags)
                        <==> self.terms@[k1].term_tags == self.terms@[k2].term_tags)
                },
            self.def_tags.view().len() == attr_contents(self.def_tags, self.def_ids()).len(),
            self.rules.view().len() == attr_contents(self.rules, self.rule_ids()).len(),
            self.term_tags.view().len() == attr_contents(self.term_tags, self.term_tag_ids()).len(),
    {
        assert forall|k: int| 0 <= k < self.terms@.len() implies {
            &&& attr_id_ok(self.def_tags, #[trigger] self.def_ids()[k])
            &&& attr_id_ok(self.rules, self.rule_ids()[k])
            &&& attr_id_ok(self.term_tags, self.term_tag_ids()[k])
        } by {
            let t = self.terms@[k];
            assert(attr_id_ok(self.def_tags, t.def_tags));
        }
        assert forall|k: int| 0 <= k < self.terms@.len() implies attr_id_ok(self.rules, #[trigger] self.rule_ids()[k]) by {
            assert(attr_id_ok(self.rules, self.terms@[k].rules));
        }
        assert forall|k: int| 0 <= k < self.terms@.len() implies attr_id_ok(self.term_tags, #[trigger] self.term_tag_ids()[k]) by {
            assert(attr_id_ok(self.term_tags, self.terms@[k].term_tags));
        }
        lemma_attr_dedup(self.def_tags, self.def_ids());
        lemma_attr_dedup(self.rules, self.rule_ids());
        lemma_attr_dedup(self.term_tags, self.term_tag_ids());
        assert forall|k1: int, k2: int|
            0 <= k1 < self.terms@.len() && 0 <= k2 < self.terms@.len() implies {
                &&& (attr_of(self.def_tags, #[trigger] self.terms@[k1].def_tags) == attr_of(self.def_tags, #[trigger] self.terms@[k2].def_tags)
                    <==> self.terms@[k1].def_tags == self.terms@[k2].def_tags)
                &&& (attr_of(self.rules, self.terms@[k1].rules) == attr_of(self.rules, self.terms@[k2].rules)
                    <==> self.terms@[k1].rules == self.terms@[k2].rules)
                &&& (attr_of(self.term_tags, self.terms@[k1].term_tags) == attr_of(self.term_tags, self.terms@[k2].term_tags)
                    <==> self.terms@[k1].term_tags == self.terms@[k2].term_tags)
            } by {
            assert(attr_of(self.def_tags, self.def_ids()[k1]) == attr_of(self.def_tags, self.def_ids()[k2]) <==> self.def_ids()[k1] == self.def_ids()[k2]);
            assert(attr_of(self.rules, self.rule_ids()[k1]) == attr_of(self.rules, self.rule_ids()[k2]) <==> self.rule_ids()[k1] == self.rule_ids()[k2]);
            assert(attr_of(self.term_tags, self.term_tag_ids()[k1]) == attr_of(self.term_tags, self.term_tag_ids()[k2]) <==> self.term_tag_ids()[k1] == self.term_tag_ids()[k2]);
        }
    }

    /// The `k`-th term is the row of `rec`, read from bank `bank`.
    pub open spec fn row_is(&self, k: int, rec: TermRecord, bank: usize) -> bool {
        let t = self.terms@[k];
        &&& t.bank == bank
        &&& t.term@ == rec.term@
        &&& t.reading@ == rec.reading@
        &&& attr_of(self.def_tags, t.def_tags) == opt_view(rec.def_tags)
        &&& attr_of(self.rules, t.rules) == opt_view(rec.rules)
        &&& t.score == rec.score
        &&& self.glossary_of(k) == rec.glossary@
        &&& t.sequence == rec.sequence
        &&& attr_of(self.term_tags, t.term_tags) == opt_view(rec.term_tags)
    }

    /// The `k`-th term is the row of the record with fields `fs`, read from bank `bank`.
    pub open spec fn row_parsed(&self, k: int, fs: Seq<Field>, bank: usize) -> bool {
        let t = self.terms@[k];
        &&& t.bank == bank
        &&& t.term@ == text_or_empty(fs, 0)
        &&& t.reading@ == text_or_empty(fs, 1)
        &&& attr_of(self.def_tags, t.def_tags) == attr_norm(text_at(fs, 2))
        &&& attr_of(self.rules, t.rules) == attr_norm(text_at(fs, 3))
        &&& t.score == int_or_zero(fs, 4)
        &&& self.glossary_of(k) == json_at(fs, 5)
        &&& t.sequence == int_at(fs, 6)
        &&& attr_of(self.term_tags, t.term_tags) == attr_norm(text_at(fs, 7))
    }

    /// The `k`-th term holds the same values in `self` and in `other`.
    pub open spec fn same_row(&self, other: &TermPlan, k: int) -> bool {
        let t = self.terms@[k];
        let u = other.terms@[k];
        &&& t.bank == u.bank
        &&& t.term@ == u.term@
        &&& t.reading@ == u.reading@
        &&& attr_of(self.def_tags, t.def_tags) == attr_of(other.def_tags, u.def_tags)
        &&& attr_of(self.rules, t.rules) == attr_of(other.rules, u.rules)
        &&& t.score == u.score
        &&& self.glossary_of(k) == other.glossary_of(k)
        &&& t.sequence == u.sequence
        &&& attr_of(self.term_tags, t.term_tags) == attr_of(other.term_tags, u.term_tags)
    }

    /// An empty plan, with fresh interners.
    pub fn new() -> (r: TermPlan)
        ensures
            r.wf(),
            r.terms@.len() == 0,
    {
        TermPlan {
            glossaries: Interner::new(),
            glossary_hashes: Vec::new(),
            def_tags: Interner::new(),
            rules: Interner::new(),
            term_tags: Interner::new(),
            terms: Vec::new(),
        }
    }

    /// Adds the rows of the records of term bank number `bank`, in order.
    pub fn add_bank(&mut self, bank: usize, records: &Vec<Vec<Field>>)
        requires
            old(self).wf(),
            old(self).terms@.len() + records@.len() < usize::MAX,
        ensures
            final(self).wf(),
            final(self).terms@.len() == old(self).terms@.len() + records@.len(),
            forall|k: int| 0 <= k < old(self).terms@.len() ==> #[trigger] final(self).same_row(&*old(self), k),
            forall|j: int|
                0 <= j < records@.len() ==> final(self).row_parsed(
                    old(self).terms@.len() + j,
                    #[trigger] records@[j]@,
                    bank,
                ),
    {
        let ghost pre = *self;
        let n = self.terms.len();
        let mut i: usize = 0;
        while i < records.len()
            invariant
                0 <= i <= records@.len(),
                n == pre.terms@.len(),
                n + records@.len() < usize::MAX,
                self.wf(),
                self.terms@.len() == n + i,
                forall|k: int| 0 <= k < n ==> #[trigger] self.same_row(&pre, k),
                forall|j: int| 0 <= j < i ==> self.row_parsed(n + j, #[trigger] records@[j]@, bank),
            decreases records@.len() - i,
        {
            let rec = TermRecord::parse(&records[i]);
            let ghost mid = *self;
            self.add_term(bank, rec);
            proof {
                assert forall|k: int| 0 <= k < n implies #[trigger] self.same_row(&pre, k) by {
                    assert(self.same_row(&mid, k));
                    assert(mid.same_row(&pre, k));
                }
                assert forall|j: int| 0 <= j < i + 1 implies self.row_parsed(n + j, #[trigger] records@[j]@, bank) by {
                    if j < i {
                        assert(self.same_row(&mid, n + j));
                        assert(mid.row_parsed(n + j, records@[j]@, bank));
                    }
                }
            }
            i = i + 1;
        }
    }

    /// Adds the row of one term record. Its glossary payload and attribute
    /// sets resolve to the ids of equal contents already in the plan, or to
    /// new ids when they are new.
    pub fn add_term(&mut self, bank: usize, rec: TermRecord)
        requires
            old(self).wf(),
            old(self).terms@.len() < usize::MAX,
        ensures
            final(self).wf(),
            final(self).terms@.len() == old(self).terms@.len() + 1,
            forall|k: int| 0 <= k < old(self).terms@.len() ==> #[trigger] final(self).same_row(&*old(self), k),
            final(self).row_is(old(self).terms@.len() as int, rec, bank),
    {
        let ghost pre = *self;
        let ghost grec = rec.glossary@;
        let n = self.terms.len();
        let content = rec.glossary;
        let glossary = if self.glossaries.contains(content.as_str()) {
            self.glossaries.intern(content)
        } else {
            let hash = sha1_hex(content.as_str());
            let id = self.glossaries.intern(content);
            self.glossary_hashes.push(hash);
            id
        };
        let def_tags = intern_attr(&mut self.def_tags, rec.def_tags);
        let rules = intern_attr(&mut self.rules, rec.rules);
        let term_tags = intern_attr(&mut self.term_tags, rec.term_tags);
        let t = PlannedTerm {
            bank,
            term: rec.term,
            reading: rec.reading,
            def_tags,
            rules,
            score: rec.score,
            glossary,
            sequence: rec.sequence,
            term_tags,
        };
        self.terms.push(t);
        proof {
            assert(grec == rec.glossary@);
            assert(self.terms@[n as int] == t);
            assert forall|k: int| 0 <= k < pre.terms@.len() implies #[trigger] self.same_row(&pre, k) by {
                assert(self.terms@[k] == pre.terms@[k]);
                assert(pre.terms@[k].glossary < pre.glossaries.view().len());
                assert(attr_id_ok(pre.def_tags, pre.terms@[k].def_tags));
                assert(attr_id_ok(pre.rules, pre.terms@[k].rules));
                assert(attr_id_ok(pre.term_tags, pre.terms@[k].term_tags));
            }
            assert forall|g: int| 0 <= g < self.glossaries.view().len() implies #[trigger] glossary_used(self.terms@, g) by {
                if g < pre.glossaries.view().len() {
                    assert(glossary_used(pre.terms@, g));
                    let k = choose|k: int| 0 <= k < pre.terms@.len() && pre.terms@[k].glossary == g;
                    assert(self.terms@[k] == pre.terms@[k]);
                } else {
                    assert(self.terms@[n as int].glossary == g);
                }
            }
            assert forall|g: int| 0 <= g < self.glossary_hashes@.len() implies #[trigger] self.glossary_hashes@[g]@
                == sha1_hex_of(self.glossaries.view()[g]) by {
                if g < pre.glossary_hashes@.len() {
                    assert(pre.glossary_hashes@[g]@ == sha1_hex_of(pre.glossaries.view()[g]));
                }
            }
            assert(self.def_ids() =~= pre.def_ids().push(def_tags));
            assert(self.rule_ids() =~= pre.rule_ids().push(rules));
            assert(self.term_tag_ids() =~= pre.term_tag_ids().push(term_tags));
            assert forall|d: int| 0 <= d < self.def_tags.view().len() implies #[trigger] id_used(self.def_ids(), d) by {
                if d < pre.def_tags.view().len() {
                    assert(id_used(pre.def_ids(), d));
                    let k = choose|k: int| 0 <= k < pre.def_ids().len() && pre.def_ids()[k] == Some(d as usize);
                    assert(self.def_ids()[k] == pre.def_ids()[k]);
                } else {
                    assert(self.def_ids()[n as int] == Some(d as usize));
                }
            }
            assert forall|d: int| 0 <= d < self.rules.view().len() implies #[trigger] id_used(self.rule_ids(), d) by {
                if d < pre.rules.view().len() {
                    assert(id_used(pre.rule_ids(), d));
                    let k = choose|k: int| 0 <= k < pre.rule_ids().len() && pre.rule_ids()[k] == Some(d as usize);
                    assert(self.rule_ids()[k] == pre.rule_ids()[k]);
                } else {
                    assert(self.rule_ids()[n as int] == Some(d as usize));
                }
            }
            assert forall|d: int| 0 <= d < self.term_tags.view().len() implies #[trigger] id_used(self.term_tag_ids(), d) by {
                if d < pre.term_tags.view().len() {
                    assert(id_used(pre.term_tag_ids(), d));
                    let k = choose|k: int| 0 <= k < pre.term_tag_ids().len() && pre.term_tag_ids()[k] == Some(d as usize);
                    assert(self.term_tag_ids()[k] == pre.term_tag_ids()[k]);
                } else {
                    assert(self.term_tag_ids()[n as int] == Some(d as usize));
                }
            }
        }
    }
}

/// The texts that the ids in `ids` refer to.
pub open spec fn attr_contents(i: Interner, ids: Seq<Option<usize>>) -> Set<Seq<char>> {
    Set::new(|c: Seq<char>| exists|k: int| 0 <= k < ids.len() && #[trigger] attr_of(i, ids[k]) == Some(c))
}

proof fn lemma_attr_dedup(i: Interner, ids: Seq<Option<usize>>)
    requires
        i.wf(),
        forall|k: int| 0 <= k < ids.len() ==> attr_id_ok(i, #[trigger] ids[k]),
        all_used(i, ids),
    ensures
        forall|k1: int, k2: int|
            0 <= k1 < ids.len() && 0 <= k2 < ids.len() ==> (#[trigger] attr_of(i, ids[k1])
                == #[trigger] attr_of(i, ids[k2]) <==> ids[k1] == ids[k2]),
        i.view().len() == attr_contents(i, ids).len(),
{
    i.lemma_unique();
    assert forall|k1: int, k2: int|
        0 <= k1 < ids.len() && 0 <= k2 < ids.len() implies (#[trigger] attr_of(i, ids[k1])
        == #[trigger] attr_of(i, ids[k2]) <==> ids[k1] == ids[k2]) by {
        assert(attr_id_ok(i, ids[k1]));
        assert(attr_id_ok(i, ids[k2]));
    }
    assert forall|c: Seq<char>| attr_contents(i, ids).contains(c) <==> i.view().to_set().contains(c) by {
        if attr_contents(i, ids).contains(c) {
            let k = choose|k: int| 0 <= k < ids.len() && #[trigger] attr_of(i, ids[k]) == Some(c);
            assert(attr_id_ok(i, ids[k]));
            assert(i.view()[ids[k].unwrap() as int] == c);
        }
        if i.view().to_set().contains(c) {
            let d = choose|d: int| 0 <= d < i.view().len() && i.view()[d] == c;
            assert(id_used(ids, d));
            let k = choose|k: int| 0 <= k < ids.len() && ids[k] == Some(d as usize);
            assert(attr_of(i, ids[k]) == Some(c));
        }
    }
    assert(attr_contents(i, ids) =~= i.view().to_set());
    i.view().unique_seq_to_set();
}

fn intern_attr(i: &mut Interner, v: Option<String>) -> (r: Option<usize>)
    requires
        old(i).wf(),
        old(i).view().len() < usize::MAX,
    ensures
        final(i).wf(),
        attr_id_ok(*final(i), r),
        attr_of(*final(i), r) == opt_view(v),
        final(i).view() == old(i).view() || (r.is_some() && final(i).view() == old(i).view().push(
            opt_view(v).unwrap(),
        ) && r.unwrap() == old(i).view().len()),
{
    match v {
        Some(s) => {
            let ghost sv = s@;
            let id = i.intern(s);
            proof {
                if !old(i).view().contains(sv) {
                    assert(final(i).view()[old(i).view().len() as int] == sv);
                    i.lemma_unique();
                    if id != old(i).view().len() {
                        assert(final(i).view()[id as int] == old(i).view()[id as int]);
                        assert(old(i).view().contains(sv));
                    }
                }
            }
            Some(id)
        },
        None => None,
    }
}

} // verus!
