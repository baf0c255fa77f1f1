//! Textual pre-processor: an ordered, fixed list of (pattern, replacement)
//! rules applied sequentially to a whole file's text before structural
//! parsing.
//!
//! A rule's pattern is a literal byte string; an empty pattern is a
//! configuration error, detected before any file is touched. The default
//! rule list repairs byte-level incompatibilities the upstream generator can
//! produce (carriage returns, tab indentation) and is proved idempotent:
//! running it twice yields the same text as running it once.

use vstd::prelude::*;

use crate::text;

verus! {

/// One pre-processing rule: replace every occurrence of a literal pattern.
pub struct TextRule {
    pub pattern: Vec<u8>,
    pub replacement: Vec<u8>,
}

impl View for TextRule {
    type V = (Seq<u8>, Seq<u8>);

    open spec fn view(&self) -> (Seq<u8>, Seq<u8>) {
        (self.pattern@, self.replacement@)
    }
}

/// View of a rule list as pattern/replacement sequence pairs.
pub open spec fn rules_view(rs: Seq<TextRule>) -> Seq<(Seq<u8>, Seq<u8>)> {
    Seq::new(rs.len(), |i: int| rs[i]@)
}

/// A rule is well formed when its pattern is non-empty.
pub open spec fn rule_wf(r: (Seq<u8>, Seq<u8>)) -> bool {
    r.0.len() > 0
}

pub open spec fn rules_wf(rs: Seq<(Seq<u8>, Seq<u8>)>) -> bool {
    forall|i: int| 0 <= i < rs.len() ==> #[trigger] rule_wf(rs[i])
}

/// The rules applied in order to the text.
pub open spec fn spec_preprocess(rs: Seq<(Seq<u8>, Seq<u8>)>, t: Seq<u8>) -> Seq<u8>
    decreases rs.len(),
{
    if rs.len() == 0 {
        t
    } else {
        spec_preprocess(rs.subrange(1, rs.len() as int), text::spec_replace_all(t, rs[0].0, rs[0].1))
    }
}

/// Checks the rule list for configuration errors: every pattern must be
/// non-empty.
pub fn validate_rules(rules: &Vec<TextRule>) -> (ok: bool)
    ensures
        ok == rules_wf(rules_view(rules@)),
{
    let mut i: usize = 0;
    while i < rules.len()
        invariant
            0 <= i <= rules@.len(),
            forall|k: int| 0 <= k < i ==> #[trigger] rule_wf(rules_view(rules@)[k]),
        decreases rules@.len() - i,
    {
        if rules[i].pattern.len() == 0 {
            proof {
                assert(!rule_wf(rules_view(rules@)[i as int]));
            }
            return false;
        }
        i += 1;
    }
    true
}

/// Applies the ordered rule list to the text.
pub fn apply_rules(rules: &Vec<TextRule>, t: &Vec<u8>) -> (res: Vec<u8>)
    requires
        rules_wf(rules_view(rules@)),
    ensures
        res@ == spec_preprocess(rules_view(rules@), t@),
{
    let ghost rv = rules_view(rules@);
    let mut cur: Vec<u8> = clone_bytes(t);
    let mut i: usize = 0;
    proof {
        assert(rv.subrange(0, rv.len() as int) =~= rv);
    }
    while i < rules.len()
        invariant
            rules_wf(rv),
            rv == rules_view(rules@),
            0 <= i <= rules@.len(),
            spec_preprocess(rv, t@) == spec_preprocess(
                rv.subrange(i as int, rv.len() as int),
                cur@,
            ),
        decreases rules@.len() - i,
    {
        proof {
            let tail = rv.subrange(i as int, rv.len() as int);
            assert(rule_wf(rv[i as int]));
            assert(tail[0] == rv[i as int]);
            assert(tail.subrange(1, tail.len() as int) =~= rv.subrange(i + 1, rv.len() as int));
        }
        cur = text::replace_all(&cur, &rules[i].pattern, &rules[i].replacement);
        i += 1;
    }
    proof {
        assert(rv.subrange(i as int, rv.len() as int) =~= Seq::<(Seq<u8>, Seq<u8>)>::empty());
    }
    cur
}

/// Copies a byte vector.
pub fn clone_bytes(t: &Vec<u8>) -> (res: Vec<u8>)
    ensures
        res@ == t@,
{
    let mut out: Vec<u8> = Vec::new();
    text::push_all(&mut out, t);
    proof {
        assert(Seq::<u8>::empty() + t@ =~= t@);
    }
    out
}

/// Shape of a rule list under which idempotence holds: every pattern is a
/// single byte, and no rule's replacement contains any rule's pattern byte.
pub open spec fn single_byte_rules(rs: Seq<(Seq<u8>, Seq<u8>)>) -> bool {
    &&& forall|i: int| 0 <= i < rs.len() ==> (#[trigger] rs[i]).0.len() == 1
    &&& forall|i: int, j: int|
        #![trigger rs[i], rs[j]]
        0 <= i < rs.len() && 0 <= j < rs.len() ==> !rs[j].1.contains(rs[i].0[0])
}

/// A byte absent from the text and from every replacement is absent from the
/// pre-processed text.
pub proof fn lemma_preprocess_preserves_absence(rs: Seq<(Seq<u8>, Seq<u8>)>, t: Seq<u8>, c: u8)
    requires
        single_byte_rules(rs),
        !t.contains(c),
        forall|j: int| 0 <= j < rs.len() ==> !(#[trigger] rs[j]).1.contains(c),
    ensures
        !spec_preprocess(rs, t).contains(c),
    decreases rs.len(),
{
    if rs.len() == 0 {
    } else {
        let t1 = text::spec_replace_all(t, rs[0].0, rs[0].1);
        text::lemma_replace_byte_absent(t, rs[0].0, rs[0].1, c);
        let tail = rs.subrange(1, rs.len() as int);
        assert(forall|j: int| 0 <= j < tail.len() ==> tail[j] == rs[j + 1]);
        lemma_preprocess_preserves_absence(tail, t1, c);
    }
}

/// After pre-processing, no rule's pattern byte remains in the text.
pub proof fn lemma_preprocess_removes(rs: Seq<(Seq<u8>, Seq<u8>)>, t: Seq<u8>, i: int)
    requires
        single_byte_rules(rs),
        0 <= i < rs.len(),
    ensures
        !spec_preprocess(rs, t).contains(rs[i].0[0]),
    decreases rs.len(),
{
    let t1 = text::spec_replace_all(t, rs[0].0, rs[0].1);
    let tail = rs.subrange(1, rs.len() as int);
    assert(forall|j: int| 0 <= j < tail.len() ==> tail[j] == rs[j + 1]);
    if i == 0 {
        let c = rs[0].0[0];
        text::lemma_replace_byte_absent(t, rs[0].0, rs[0].1, c);
        lemma_preprocess_preserves_absence(tail, t1, c);
    } else {
        lemma_preprocess_removes(tail, t1, i - 1);
        assert(tail[i - 1] == rs[i]);
    }
}

/// A text containing no rule's pattern byte is a fixed point of the rule
/// list.
pub proof fn lemma_preprocess_fixed(rs: Seq<(Seq<u8>, Seq<u8>)>, t: Seq<u8>)
    requires
        single_byte_rules(rs),
        forall|i: int| 0 <= i < rs.len() ==> !t.contains((#[trigger] rs[i]).0[0]),
    ensures
        spec_preprocess(rs, t) == t,
    decreases rs.len(),
{
    if rs.len() == 0 {
    } else {
        text::lemma_replace_no_byte_identity(t, rs[0].0, rs[0].1);
        let tail = rs.subrange(1, rs.len() as int);
        assert(forall|j: int| 0 <= j < tail.len() ==> tail[j] == rs[j + 1]);
        lemma_preprocess_fixed(tail, t);
    }
}

/// Idempotence of textual pre-processing: for a rule list of the default
/// shape, applying the full ordered rule list twice yields the same text as
/// applying it once, for any input text.
pub proof fn lemma_preprocess_idempotent(rs: Seq<(Seq<u8>, Seq<u8>)>, t: Seq<u8>)
    requires
        single_byte_rules(rs),
    ensures
        spec_preprocess(rs, spec_preprocess(rs, t)) == spec_preprocess(rs, t),
{
    let u = spec_preprocess(rs, t);
    assert forall|i: int| 0 <= i < rs.len() implies !u.contains((#[trigger] rs[i]).0[0]) by {
        lemma_preprocess_removes(rs, t, i);
    }
    lemma_preprocess_fixed(rs, u);
}

/// The default rule list: every carriage return is removed and every tab
/// becomes a space, repairing line endings and indentation bytes that the
/// structural parser does not accept.
pub open spec fn spec_default_rules() -> Seq<(Seq<u8>, Seq<u8>)> {
    seq![(seq![13u8], Seq::<u8>::empty()), (seq![9u8], seq![32u8])]
}

/// The default rule list satisfies the idempotence shape.
pub proof fn lemma_default_rules_shape()
    ensures
        single_byte_rules(spec_default_rules()),
        rules_wf(spec_default_rules()),
{
    let rs = spec_default_rules();
    assert forall|i: int, j: int|
        #![trigger rs[i], rs[j]]
        0 <= i < rs.len() && 0 <= j < rs.len() implies !rs[j].1.contains(rs[i].0[0]) by {
        if rs[j].1.contains(rs[i].0[0]) {
            let k = choose|k: int| 0 <= k < rs[j].1.len() && rs[j].1[k] == rs[i].0[0];
            assert(j == 1 && k == 0);
            assert(rs[i].0[0] == 32u8);
            assert(i == 0 || i == 1);
        }
    }
    assert forall|i: int| 0 <= i < rs.len() implies #[trigger] rule_wf(rs[i]) by {}
}

/// Idempotence of the default rule list, for any input text.
pub proof fn lemma_default_rules_idempotent(t: Seq<u8>)
    ensures
        spec_preprocess(spec_default_rules(), spec_preprocess(spec_default_rules(), t))
            == spec_preprocess(spec_default_rules(), t),
{
    lemma_default_rules_shape();
    lemma_preprocess_idempotent(spec_default_rules(), t);
}

/// Builds the default rule list.
pub fn default_rules() -> (rules: Vec<TextRule>)
    ensures
        rules_view(rules@) == spec_default_rules(),
{
    let mut rules: Vec<TextRule> = Vec::new();
    rules.push(TextRule { pattern: vec![13u8], replacement: vec![] });
    rules.push(TextRule { pattern: vec![9u8], replacement: vec![32u8] });
    proof {
        assert(rules_view(rules@) =~= spec_default_rules()) by {
            assert(rules_view(rules@)[0].0 =~= seq![13u8]);
            assert(rules_view(rules@)[0].1 =~= Seq::<u8>::empty());
            assert(rules_view(rules@)[1].0 =~= seq![9u8]);
            assert(rules_view(rules@)[1].1 =~= seq![32u8]);
        }
    }
    rules
}

} // verus!
