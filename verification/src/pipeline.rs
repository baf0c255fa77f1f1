//! Orchestration of the transform over a file set.
//!
//! Build artifacts (file names starting with `descriptor` or `buf`) are
//! excluded from transformation and from the output set. Every remaining
//! file runs pre-processing, parsing, the transform rules, and emission.
//! The rule list is checked for configuration errors before any file is
//! touched. A file that fails to parse either aborts the batch or is
//! recorded and skipped, according to the named policy choice.

use vstd::prelude::*;

use crate::decl;
use crate::emit;
use crate::parse;
use crate::preprocess;
use crate::preprocess::TextRule;
use crate::rules;
use crate::rules::{ClashFix, ClashFixV};
use crate::schema::{SchemaSet, SchemaSetV};
use crate::text;

verus! {

/// The error taxonomy of a run.
#[derive(PartialEq, Eq, Structural, Debug, Clone, Copy)]
pub enum PipelineError {
    /// A textual rule has an empty pattern: fatal at startup.
    RuleConfiguration,
    /// The binary descriptor set cannot be decoded: fatal before any file.
    Decode,
    /// A source file fails to parse after pre-processing.
    ParseFailure,
}

/// What the run does with a file that fails to parse.
#[derive(PartialEq, Eq, Structural, Debug, Clone, Copy)]
pub enum ParsePolicy {
    /// Abort the whole batch on the first failing file.
    AbortBatch,
    /// Record the failing file and continue with the rest.
    SkipFile,
}

/// The explicit configuration structure: textual rules, the clash-fix
/// table, and the parse-failure policy.
pub struct Config {
    pub rules: Vec<TextRule>,
    pub clash_fixes: Vec<ClashFix>,
    pub policy: ParsePolicy,
}

/// One named file, as plain bytes.
pub struct SourceUnit {
    pub name: Vec<u8>,
    pub contents: Vec<u8>,
}

pub open spec fn units_view(us: Seq<SourceUnit>) -> Seq<(Seq<u8>, Seq<u8>)> {
    Seq::new(us.len(), |i: int| (us[i].name@, us[i].contents@))
}

/// The outputs of a run, and the names of files skipped under the
/// `SkipFile` policy.
pub struct BatchOutput {
    pub outputs: Vec<SourceUnit>,
    pub failures: Vec<Vec<u8>>,
}

pub open spec fn descriptor_prefix() -> Seq<u8> {
    seq![100u8, 101u8, 115u8, 99u8, 114u8, 105u8, 112u8, 116u8, 111u8, 114u8]
}

pub open spec fn buf_prefix() -> Seq<u8> {
    seq![98u8, 117u8, 102u8]
}

/// A build artifact: excluded from transformation and output.
pub open spec fn spec_excluded(name: Seq<u8>) -> bool {
    text::has_prefix(name, descriptor_prefix()) || text::has_prefix(name, buf_prefix())
}

/// Executable exclusion filter.
pub fn is_excluded(name: &Vec<u8>) -> (b: bool)
    ensures
        b == spec_excluded(name@),
{
    let dp: Vec<u8> = vec![100u8, 101u8, 115u8, 99u8, 114u8, 105u8, 112u8, 116u8, 111u8, 114u8];
    let bp: Vec<u8> = vec![98u8, 117u8, 102u8];
    proof {
        assert(dp@ =~= descriptor_prefix());
        assert(bp@ =~= buf_prefix());
    }
    text::starts_with(name, &dp) || text::starts_with(name, &bp)
}

pub open spec fn rs_suffix() -> Seq<u8> {
    seq![46u8, 114u8, 115u8]
}

/// The module path of a generated file: its name without a trailing `.rs`.
pub open spec fn spec_module_of(name: Seq<u8>) -> Seq<u8> {
    if name.len() >= 3 && name.subrange(name.len() - 3, name.len() as int) == rs_suffix() {
        name.subrange(0, name.len() - 3)
    } else {
        name
    }
}

pub fn module_of(name: &Vec<u8>) -> (res: Vec<u8>)
    ensures
        res@ == spec_module_of(name@),
{
    if name.len() >= 3 {
        let n = name.len();
        if name[n - 3] == 46 && name[n - 2] == 114 && name[n - 1] == 115 {
            proof {
                assert(name@.subrange(name@.len() - 3, name@.len() as int) =~= rs_suffix());
            }
            return text::slice_range(name, 0, n - 3);
        }
        proof {
            assert(name@.subrange(name@.len() - 3, name@.len() as int) != rs_suffix()) by {
                let sfx = name@.subrange(name@.len() - 3, name@.len() as int);
                if sfx == rs_suffix() {
                    assert(sfx[0] == name@[name@.len() - 3]);
                    assert(sfx[1] == name@[name@.len() - 2]);
                    assert(sfx[2] == name@[name@.len() - 1]);
                }
            }
        }
    }
    preprocess::clone_bytes(name)
}

/// One file's pipeline: pre-process, parse, transform, emit.
pub open spec fn spec_transform_file(
    rs: Seq<(Seq<u8>, Seq<u8>)>,
    fixes: Seq<ClashFixV>,
    s: SchemaSetV,
    module: Seq<u8>,
    t: Seq<u8>,
) -> Option<Seq<u8>> {
    match parse::spec_parse_source(preprocess::spec_preprocess(rs, t)) {
        Option::None => Option::None,
        Option::Some(items) => Option::Some(
            emit::spec_emit_text(rules::spec_transform_items(s, module, fixes, items)),
        ),
    }
}

/// Runs the pipeline on one file's text.
pub fn transform_file(t: &Vec<u8>, module: &Vec<u8>, s: &SchemaSet, config: &Config) -> (r: Result<
    Vec<u8>,
    PipelineError,
>)
    requires
        preprocess::rules_wf(preprocess::rules_view(config.rules@)),
    ensures
        match r {
            Result::Ok(out) => spec_transform_file(
                preprocess::rules_view(config.rules@),
                rules::fixes_view(config.clash_fixes@),
                s@,
                module@,
                t@,
            ) == Option::Some(out@),
            Result::Err(e) => e == PipelineError::ParseFailure && spec_transform_file(
                preprocess::rules_view(config.rules@),
                rules::fixes_view(config.clash_fixes@),
                s@,
                module@,
                t@,
            ) matches Option::None,
        },
{
    let pre = preprocess::apply_rules(&config.rules, t);
    match parse::parse_source(&pre) {
        Option::None => Result::Err(PipelineError::ParseFailure),
        Option::Some(items) => {
            let transformed = rules::transform_items(items, module, s, &config.clash_fixes);
            Result::Ok(emit::emit_source(&transformed))
        },
    }
}

/// The whole batch: excluded files dropped, each remaining file
/// transformed; `None` is an aborted batch.
pub open spec fn spec_batch(
    rs: Seq<(Seq<u8>, Seq<u8>)>,
    fixes: Seq<ClashFixV>,
    s: SchemaSetV,
    skip_failed: bool,
    files: Seq<(Seq<u8>, Seq<u8>)>,
) -> Option<(Seq<(Seq<u8>, Seq<u8>)>, Seq<Seq<u8>>)>
    decreases files.len(),
{
    if files.len() == 0 {
        Option::Some((Seq::empty(), Seq::empty()))
    } else {
        let name = files[0].0;
        let rest = spec_batch(rs, fixes, s, skip_failed, files.subrange(1, files.len() as int));
        if spec_excluded(name) {
            rest
        } else {
            match spec_transform_file(rs, fixes, s, spec_module_of(name), files[0].1) {
                Option::None => {
                    if skip_failed {
                        match rest {
                            Option::None => Option::None,
                            Option::Some(r) => Option::Some((r.0, seq![name] + r.1)),
                        }
                    } else {
                        Option::None
                    }
                },
                Option::Some(out) => {
                    match rest {
                        Option::None => Option::None,
                        Option::Some(r) => Option::Some((seq![(name, out)] + r.0, r.1)),
                    }
                },
            }
        }
    }
}

/// Runs the whole batch. The rule list is validated first; an invalid rule
/// pattern is fatal before any file is touched.
pub fn run_batch(files: Vec<SourceUnit>, s: &SchemaSet, config: &Config) -> (r: Result<
    BatchOutput,
    PipelineError,
>)
    ensures
        match r {
            Result::Ok(b) => preprocess::rules_wf(preprocess::rules_view(config.rules@))
                && spec_batch(
                preprocess::rules_view(config.rules@),
                rules::fixes_view(config.clash_fixes@),
                s@,
                config.policy == ParsePolicy::SkipFile,
                units_view(files@),
            ) == Option::Some((units_view(b.outputs@), text::view2(b.failures@))),
            Result::Err(e) => {
                &&& (e == PipelineError::RuleConfiguration <==> !preprocess::rules_wf(
                    preprocess::rules_view(config.rules@),
                ))
                &&& (e == PipelineError::ParseFailure ==> spec_batch(
                    preprocess::rules_view(config.rules@),
                    rules::fixes_view(config.clash_fixes@),
                    s@,
                    config.policy == ParsePolicy::SkipFile,
                    units_view(files@),
                ) matches Option::None)
                &&& e != PipelineError::Decode
            },
        },
{
    let ghost rsv = preprocess::rules_view(config.rules@);
    let ghost fxv = rules::fixes_view(config.clash_fixes@);
    let ghost skip = config.policy == ParsePolicy::SkipFile;
    let ghost fv = units_view(files@);
    if !preprocess::validate_rules(&config.rules) {
        return Result::Err(PipelineError::RuleConfiguration);
    }
    let mut outputs: Vec<SourceUnit> = Vec::new();
    let mut failures: Vec<Vec<u8>> = Vec::new();
    let mut src = files;
    let total: usize = src.len();
    let mut taken: usize = 0;
    proof {
        assert(fv.subrange(0, fv.len() as int) =~= fv);
        assert(units_view(outputs@) =~= Seq::<(Seq<u8>, Seq<u8>)>::empty());
        assert(text::view2(failures@) =~= Seq::<Seq<u8>>::empty());
        match spec_batch(rsv, fxv, s@, skip, fv) {
            Option::Some(r) => {
                assert(Seq::<(Seq<u8>, Seq<u8>)>::empty() + r.0 =~= r.0);
                assert(Seq::<Seq<u8>>::empty() + r.1 =~= r.1);
            },
            Option::None => {},
        }
    }
    while src.len() > 0
        invariant
            preprocess::rules_wf(rsv),
            rsv == preprocess::rules_view(config.rules@),
            fxv == rules::fixes_view(config.clash_fixes@),
            skip == (config.policy == ParsePolicy::SkipFile),
            fv == units_view(files@),
            total == fv.len(),
            taken + src@.len() == total,
            forall|j: int|
                0 <= j < src@.len() ==> ((#[trigger] src@[j]).name@, src@[j].contents@) == fv[taken
                    + j],
            spec_batch(rsv, fxv, s@, skip, fv) == (match spec_batch(
                rsv,
                fxv,
                s@,
                skip,
                fv.subrange(taken as int, fv.len() as int),
            ) {
                Option::None => Option::<(Seq<(Seq<u8>, Seq<u8>)>, Seq<Seq<u8>>)>::None,
                Option::Some(r) => Option::Some(
                    (units_view(outputs@) + r.0, text::view2(failures@) + r.1),
                ),
            }),
        decreases src@.len(),
    {
        let ghost rem = fv.subrange(taken as int, fv.len() as int);
        proof {
            assert(rem[0] == fv[taken as int]);
            assert(rem.subrange(1, rem.len() as int) =~= fv.subrange(taken + 1, fv.len() as int));
        }
        let ghost sv = src@;
        let unit = src.remove(0);
        proof {
            assert((unit.name@, unit.contents@) == fv[taken as int]);
            assert(src@ =~= sv.subrange(1, sv.len() as int));
        }
        let SourceUnit { name, contents } = unit;
        if !is_excluded(&name) {
            let module = module_of(&name);
            match transform_file(&contents, &module, s, config) {
                Result::Ok(out) => {
                    let ghost ov = units_view(outputs@);
                    let ghost outv = out@;
                    outputs.push(SourceUnit { name: name, contents: out });
                    proof {
                        assert(units_view(outputs@) =~= ov.push((rem[0].0, outv)));
                        assert(spec_transform_file(
                            rsv,
                            fxv,
                            s@,
                            spec_module_of(rem[0].0),
                            rem[0].1,
                        ) == Option::Some(outv));
                        match spec_batch(rsv, fxv, s@, skip, fv.subrange(taken + 1, fv.len() as int)) {
                            Option::Some(r) => {
                                assert(ov.push((rem[0].0, outv)) + r.0 =~= ov + (seq![
                                    (rem[0].0, outv),
                                ] + r.0));
                            },
                            Option::None => {},
                        }
                    }
                },
                Result::Err(_e) => {
                    let is_skip = match config.policy {
                        ParsePolicy::SkipFile => true,
                        ParsePolicy::AbortBatch => false,
                    };
                    if is_skip {
                        let ghost flv = text::view2(failures@);
                        failures.push(name);
                        proof {
                            assert(text::view2(failures@) =~= flv.push(rem[0].0));
                            match spec_batch(rsv, fxv, s@, skip, fv.subrange(taken + 1, fv.len() as int)) {
                                Option::Some(r) => {
                                    assert(flv.push(rem[0].0) + r.1 =~= flv + (seq![rem[0].0]
                                        + r.1));
                                },
                                Option::None => {},
                            }
                        }
                    } else {
                        proof {
                            assert(!skip);
                            assert(spec_transform_file(
                                rsv,
                                fxv,
                                s@,
                                spec_module_of(rem[0].0),
                                rem[0].1,
                            ) is None);
                            assert(spec_batch(rsv, fxv, s@, skip, rem) is None);
                            assert(spec_batch(rsv, fxv, s@, skip, fv) is None);
                        }
                        return Result::Err(PipelineError::ParseFailure);
                    }
                },
            }
        }
        taken += 1;
    }
    proof {
        assert(fv.subrange(taken as int, fv.len() as int) =~= Seq::<(Seq<u8>, Seq<u8>)>::empty());
        assert(units_view(outputs@) + Seq::<(Seq<u8>, Seq<u8>)>::empty() =~= units_view(outputs@));
        assert(text::view2(failures@) + Seq::<Seq<u8>>::empty() =~= text::view2(failures@));
    }
    Result::Ok(BatchOutput { outputs: outputs, failures: failures })
}

/// Every transformed file begins with the prepended standard import line.
pub proof fn lemma_output_begins_with_import(
    rs: Seq<(Seq<u8>, Seq<u8>)>,
    fixes: Seq<ClashFixV>,
    s: SchemaSetV,
    module: Seq<u8>,
    t: Seq<u8>,
)
    ensures
        match spec_transform_file(rs, fixes, s, module, t) {
            Option::Some(out) => text::has_prefix(out, rules::spec_import_line() + seq![10u8]),
            Option::None => true,
        },
{
    match parse::spec_parse_source(preprocess::spec_preprocess(rs, t)) {
        Option::None => {},
        Option::Some(items) => {
            let transformed = rules::spec_transform_items(s, module, fixes, items);
            let head = crate::decl::SourceItemV::Passthrough(rules::spec_import_line());
            let mapped = Seq::new(
                items.len(),
                |i: int| rules::spec_transform_item(s, module, fixes, items[i]),
            );
            assert(transformed == seq![head] + mapped);
            emit::lemma_items_lines_append(seq![head], mapped);
            emit::lemma_items_lines_singleton(head);
            let ls = emit::items_lines(transformed);
            assert(ls == seq![rules::spec_import_line()] + emit::items_lines(mapped));
            assert(ls[0] == rules::spec_import_line());
            assert(ls.subrange(1, ls.len() as int) =~= emit::items_lines(mapped));
            let out = text::spec_join_lines(ls);
            assert(out == rules::spec_import_line() + seq![10u8] + text::spec_join_lines(
                emit::items_lines(mapped),
            ));
            let p = rules::spec_import_line() + seq![10u8];
            assert(out.subrange(0, p.len() as int) =~= p);
        },
    }
}

/// The names of a batch's outputs.
pub open spec fn out_names(o: Seq<(Seq<u8>, Seq<u8>)>) -> Seq<Seq<u8>> {
    Seq::new(o.len(), |i: int| o[i].0)
}

/// The input names that survive the exclusion filter, in order.
pub open spec fn spec_kept_names(files: Seq<(Seq<u8>, Seq<u8>)>) -> Seq<Seq<u8>>
    decreases files.len(),
{
    if files.len() == 0 {
        Seq::empty()
    } else if spec_excluded(files[0].0) {
        spec_kept_names(files.subrange(1, files.len() as int))
    } else {
        seq![files[0].0] + spec_kept_names(files.subrange(1, files.len() as int))
    }
}

/// Exclusion filter correctness, first half: no excluded file name ever
/// appears in the output set.
pub proof fn lemma_no_excluded_output(
    rs: Seq<(Seq<u8>, Seq<u8>)>,
    fixes: Seq<ClashFixV>,
    s: SchemaSetV,
    skip_failed: bool,
    files: Seq<(Seq<u8>, Seq<u8>)>,
)
    ensures
        match spec_batch(rs, fixes, s, skip_failed, files) {
            Option::Some(r) => forall|j: int| 0 <= j < r.0.len() ==> !spec_excluded(
                (#[trigger] r.0[j]).0,
            ),
            Option::None => true,
        },
    decreases files.len(),
{
    if files.len() == 0 {
    } else {
        let rest = files.subrange(1, files.len() as int);
        lemma_no_excluded_output(rs, fixes, s, skip_failed, rest);
        match spec_batch(rs, fixes, s, skip_failed, files) {
            Option::Some(r) => {
                match spec_batch(rs, fixes, s, skip_failed, rest) {
                    Option::Some(rr) => {
                        assert forall|j: int| 0 <= j < r.0.len() implies !spec_excluded(
                            (#[trigger] r.0[j]).0,
                        ) by {
                            if !spec_excluded(files[0].0) && spec_transform_file(
                                rs,
                                fixes,
                                s,
                                spec_module_of(files[0].0),
                                files[0].1,
                            ) is Some {
                                if j >= 1 {
                                    assert(r.0[j] == rr.0[j - 1]);
                                }
                            } else {
                                assert(r.0[j] == rr.0[j]);
                            }
                        }
                    },
                    Option::None => {},
                }
            },
            Option::None => {},
        }
    }
}

/// Exclusion filter correctness, second half: when every non-excluded file
/// transforms successfully, the batch succeeds with no failures, and the
/// output names are exactly the non-excluded input names, in order — each
/// eligible file appears exactly once.
pub proof fn lemma_exclusion_filter(
    rs: Seq<(Seq<u8>, Seq<u8>)>,
    fixes: Seq<ClashFixV>,
    s: SchemaSetV,
    skip_failed: bool,
    files: Seq<(Seq<u8>, Seq<u8>)>,
)
    requires
        forall|i: int|
            0 <= i < files.len() && !spec_excluded((#[trigger] files[i]).0)
                ==> spec_transform_file(rs, fixes, s, spec_module_of(files[i].0), files[i].1)
                is Some,
    ensures
        spec_batch(rs, fixes, s, skip_failed, files) is Some,
        spec_batch(rs, fixes, s, skip_failed, files)->Some_0.1 == Seq::<Seq<u8>>::empty(),
        out_names(spec_batch(rs, fixes, s, skip_failed, files)->Some_0.0) == spec_kept_names(
            files,
        ),
    decreases files.len(),
{
    if files.len() == 0 {
        assert(out_names(Seq::empty()) =~= Seq::<Seq<u8>>::empty());
    } else {
        let rest = files.subrange(1, files.len() as int);
        assert(forall|i: int| 0 <= i < rest.len() ==> rest[i] == files[i + 1]);
        lemma_exclusion_filter(rs, fixes, s, skip_failed, rest);
        let rr = spec_batch(rs, fixes, s, skip_failed, rest)->Some_0;
        if spec_excluded(files[0].0) {
        } else {
            let out = spec_transform_file(rs, fixes, s, spec_module_of(files[0].0), files[0].1);
            assert(out is Some);
            let r = spec_batch(rs, fixes, s, skip_failed, files)->Some_0;
            assert(r.0 == seq![(files[0].0, out->Some_0)] + rr.0);
            assert(out_names(r.0) =~= seq![files[0].0] + out_names(rr.0));
        }
    }
}

/// How many times a name occurs in a list.
pub open spec fn count_in(ns: Seq<Seq<u8>>, x: Seq<u8>) -> nat
    decreases ns.len(),
{
    if ns.len() == 0 {
        0
    } else {
        (if ns[0] == x {
            1nat
        } else {
            0nat
        }) + count_in(ns.subrange(1, ns.len() as int), x)
    }
}

/// The input file names, in order.
pub open spec fn in_names(files: Seq<(Seq<u8>, Seq<u8>)>) -> Seq<Seq<u8>> {
    Seq::new(files.len(), |i: int| files[i].0)
}

/// The kept names hold an excluded name never, and any other name exactly
/// as often as the input does.
pub proof fn lemma_kept_count(files: Seq<(Seq<u8>, Seq<u8>)>, x: Seq<u8>)
    ensures
        count_in(spec_kept_names(files), x) == if spec_excluded(x) {
            0nat
        } else {
            count_in(in_names(files), x)
        },
    decreases files.len(),
{
    if files.len() == 0 {
    } else {
        let rest = files.subrange(1, files.len() as int);
        lemma_kept_count(rest, x);
        assert(in_names(files).subrange(1, in_names(files).len() as int) =~= in_names(rest));
        assert(in_names(files)[0] == files[0].0);
        if spec_excluded(files[0].0) {
        } else {
            let kept = spec_kept_names(files);
            assert(kept == seq![files[0].0] + spec_kept_names(rest));
            assert(kept[0] == files[0].0);
            assert(kept.subrange(1, kept.len() as int) =~= spec_kept_names(rest));
        }
    }
}

/// Exclusion filter correctness as counts: when every non-excluded file
/// transforms successfully, an excluded name never appears among the
/// outputs, and every other name appears exactly as often as in the input —
/// for a set of distinct file names, exactly once.
pub proof fn lemma_eligible_exactly_once(
    rs: Seq<(Seq<u8>, Seq<u8>)>,
    fixes: Seq<ClashFixV>,
    s: SchemaSetV,
    skip_failed: bool,
    files: Seq<(Seq<u8>, Seq<u8>)>,
    x: Seq<u8>,
)
    requires
        forall|i: int|
            0 <= i < files.len() && !spec_excluded((#[trigger] files[i]).0)
                ==> spec_transform_file(rs, fixes, s, spec_module_of(files[i].0), files[i].1)
                is Some,
    ensures
        spec_batch(rs, fixes, s, skip_failed, files) is Some,
        count_in(
            out_names(spec_batch(rs, fixes, s, skip_failed, files)->Some_0.0),
            x,
        ) == if spec_excluded(x) {
            0nat
        } else {
            count_in(in_names(files), x)
        },
{
    lemma_exclusion_filter(rs, fixes, s, skip_failed, files);
    lemma_kept_count(files, x);
}

} // verus!