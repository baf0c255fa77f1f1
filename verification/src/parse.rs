//! Structural parser: converts pre-processed text into a declaration tree.
//!
//! The parser recognises the canonical shape the emitter produces: an
//! optional derive line and attribute lines before each declaration header,
//! indented attribute and field (or variant) lines inside a body, and a
//! closing brace; any other top-level line is kept as an opaque passthrough
//! item. A file that deviates from this shape inside a declaration fails to
//! parse, which callers surface as a per-file parse failure.

use vstd::prelude::*;

use crate::decl;
use crate::decl::{
    FieldDecl, FieldDeclV, VariantDecl, VariantDeclV, StructDecl, StructDeclV, EnumDecl, EnumDeclV,
    SourceItem, SourceItemV,
};
use crate::text;

verus! {

/// A line that begins an attribute or doc comment.
pub open spec fn is_attr_start_line(l: Seq<u8>) -> bool {
    text::has_prefix(l, decl::bs_attr_start()) || text::has_prefix(l, decl::bs_doc_start())
}

/// Length of the leading run of identifier bytes.
pub open spec fn ident_run_len(s: Seq<u8>) -> int
    decreases s.len(),
{
    if s.len() == 0 || !decl::is_ident_byte(s[0]) {
        0
    } else {
        1 + ident_run_len(s.subrange(1, s.len() as int))
    }
}

pub proof fn lemma_ident_run_at(s: Seq<u8>, m: int)
    requires
        0 <= m <= s.len(),
        forall|j: int| 0 <= j < m ==> decl::is_ident_byte(#[trigger] s[j]),
        m < s.len() ==> !decl::is_ident_byte(s[m]),
    ensures
        ident_run_len(s) == m,
    decreases m,
{
    if s.len() == 0 {
    } else if m == 0 {
    } else {
        let s1 = s.subrange(1, s.len() as int);
        assert(forall|j: int| 0 <= j < s1.len() ==> s1[j] == s[j + 1]);
        lemma_ident_run_at(s1, m - 1);
    }
}

/// The parsed name and type of an (unindented) field line.
pub open spec fn spec_parse_field_line(u: Seq<u8>) -> Option<(Seq<u8>, Seq<u8>)> {
    if !text::has_prefix(u, decl::bs_pub_space()) {
        Option::None
    } else {
        let v = u.subrange(4, u.len() as int);
        let n = ident_run_len(v);
        if n == 0 || v.len() < n + 4 {
            Option::None
        } else if v.subrange(n, n + 2) == decl::bs_colon_space() && v[v.len() - 1] == 44u8 {
            Option::Some((v.subrange(0, n), v.subrange(n + 2, v.len() - 1)))
        } else {
            Option::None
        }
    }
}

/// The parsed name and optional discriminant digits of an (unindented)
/// variant line.
pub open spec fn spec_parse_variant_line(u: Seq<u8>) -> Option<(Seq<u8>, Option<Seq<u8>>)> {
    let n = ident_run_len(u);
    if n == 0 {
        Option::None
    } else if u.len() == n + 1 && u[n] == 44u8 {
        Option::Some((u.subrange(0, n), Option::None))
    } else if u.len() >= n + 5 && u.subrange(n, n + 3) == decl::bs_eq_sep() && u[u.len() - 1]
        == 44u8 {
        let d = u.subrange(n + 3, u.len() - 1);
        if forall|i: int| 0 <= i < d.len() ==> decl::is_digit_byte(#[trigger] d[i]) {
            Option::Some((u.subrange(0, n), Option::Some(d)))
        } else {
            Option::None
        }
    } else {
        Option::None
    }
}

/// The name of a struct header line.
pub open spec fn spec_parse_struct_header(l: Seq<u8>) -> Option<Seq<u8>> {
    if text::has_prefix(l, decl::bs_pub_struct()) && l.len() >= decl::bs_pub_struct().len() + 3
        && l.subrange(l.len() - 2, l.len() as int) == decl::bs_space_brace() {
        Option::Some(l.subrange(decl::bs_pub_struct().len() as int, l.len() - 2))
    } else {
        Option::None
    }
}

/// The name of an enum header line.
pub open spec fn spec_parse_enum_header(l: Seq<u8>) -> Option<Seq<u8>> {
    if text::has_prefix(l, decl::bs_pub_enum()) && l.len() >= decl::bs_pub_enum().len() + 3
        && l.subrange(l.len() - 2, l.len() as int) == decl::bs_space_brace() {
        Option::Some(l.subrange(decl::bs_pub_enum().len() as int, l.len() - 2))
    } else {
        Option::None
    }
}

/// Splits on the separator, accumulating the current piece.
pub open spec fn split_sep_aux(s: Seq<u8>, sep: Seq<u8>, cur: Seq<u8>) -> Seq<Seq<u8>>
    decreases s.len(),
{
    if sep.len() == 0 || s.len() == 0 {
        seq![cur + s]
    } else if text::has_prefix(s, sep) {
        seq![cur] + split_sep_aux(s.subrange(sep.len() as int, s.len() as int), sep, Seq::empty())
    } else {
        split_sep_aux(s.subrange(1, s.len() as int), sep, cur.push(s[0]))
    }
}

pub open spec fn split_sep(s: Seq<u8>, sep: Seq<u8>) -> Seq<Seq<u8>> {
    split_sep_aux(s, sep, Seq::empty())
}

/// The derive names of a derive line.
pub open spec fn spec_parse_derive_names(l: Seq<u8>) -> Option<Seq<Seq<u8>>> {
    if text::has_prefix(l, decl::bs_derive_open()) && l.len() >= decl::bs_derive_open().len()
        + decl::bs_derive_close().len() && l.subrange(l.len() - 2, l.len() as int)
        == decl::bs_derive_close() {
        let inner = l.subrange(decl::bs_derive_open().len() as int, l.len() - 2);
        if inner.len() == 0 {
            Option::Some(Seq::empty())
        } else {
            Option::Some(split_sep(inner, decl::bs_comma_space()))
        }
    } else {
        Option::None
    }
}

/// Collects the leading run of attribute lines: derive names, plain
/// attribute lines, and the number of lines consumed.
pub open spec fn spec_collect_run(ls: Seq<Seq<u8>>) -> Option<(Seq<Seq<u8>>, Seq<Seq<u8>>, int)>
    decreases ls.len(),
{
    if ls.len() == 0 || !is_attr_start_line(ls[0]) {
        Option::Some((Seq::empty(), Seq::empty(), 0))
    } else if text::has_prefix(ls[0], decl::bs_derive_open()) {
        match spec_parse_derive_names(ls[0]) {
            Option::None => Option::None,
            Option::Some(names) => match spec_collect_run(ls.subrange(1, ls.len() as int)) {
                Option::None => Option::None,
                Option::Some(rest) => Option::Some((names + rest.0, rest.1, rest.2 + 1)),
            },
        }
    } else {
        match spec_collect_run(ls.subrange(1, ls.len() as int)) {
            Option::None => Option::None,
            Option::Some(rest) => Option::Some((rest.0, seq![ls[0]] + rest.1, rest.2 + 1)),
        }
    }
}

/// Parses a struct body: indented attribute and field lines up to the
/// closing brace. Returns the fields and the number of lines consumed.
pub open spec fn spec_parse_struct_body(
    ls: Seq<Seq<u8>>,
    pend: Seq<Seq<u8>>,
    acc: Seq<FieldDeclV>,
) -> Option<(Seq<FieldDeclV>, int)>
    decreases ls.len(),
{
    if ls.len() == 0 {
        Option::None
    } else if ls[0] == decl::bs_close_brace() {
        if pend.len() == 0 {
            Option::Some((acc, 1))
        } else {
            Option::None
        }
    } else if text::has_prefix(ls[0], decl::bs_indent()) {
        let u = ls[0].subrange(4, ls[0].len() as int);
        if is_attr_start_line(u) {
            match spec_parse_struct_body(ls.subrange(1, ls.len() as int), pend.push(u), acc) {
                Option::None => Option::None,
                Option::Some(r) => Option::Some((r.0, r.1 + 1)),
            }
        } else {
            match spec_parse_field_line(u) {
                Option::None => Option::None,
                Option::Some(nt) => match spec_parse_struct_body(
                    ls.subrange(1, ls.len() as int),
                    Seq::empty(),
                    acc.push((FieldDeclV { attrs: pend, name: nt.0, ty: nt.1 })),
                ) {
                    Option::None => Option::None,
                    Option::Some(r) => Option::Some((r.0, r.1 + 1)),
                },
            }
        }
    } else {
        Option::None
    }
}

/// Parses an enum body: indented attribute and variant lines up to the
/// closing brace.
pub open spec fn spec_parse_enum_body(
    ls: Seq<Seq<u8>>,
    pend: Seq<Seq<u8>>,
    acc: Seq<VariantDeclV>,
) -> Option<(Seq<VariantDeclV>, int)>
    decreases ls.len(),
{
    if ls.len() == 0 {
        Option::None
    } else if ls[0] == decl::bs_close_brace() {
        if pend.len() == 0 {
            Option::Some((acc, 1))
        } else {
            Option::None
        }
    } else if text::has_prefix(ls[0], decl::bs_indent()) {
        let u = ls[0].subrange(4, ls[0].len() as int);
        if is_attr_start_line(u) {
            match spec_parse_enum_body(ls.subrange(1, ls.len() as int), pend.push(u), acc) {
                Option::None => Option::None,
                Option::Some(r) => Option::Some((r.0, r.1 + 1)),
            }
        } else {
            match spec_parse_variant_line(u) {
                Option::None => Option::None,
                Option::Some(nd) => match spec_parse_enum_body(
                    ls.subrange(1, ls.len() as int),
                    Seq::empty(),
                    acc.push((VariantDeclV { attrs: pend, name: nd.0, discr: nd.1 })),
                ) {
                    Option::None => Option::None,
                    Option::Some(r) => Option::Some((r.0, r.1 + 1)),
                },
            }
        }
    } else {
        Option::None
    }
}

/// Parses one item from the front of the line list, returning it and the
/// number of lines consumed.
pub open spec fn spec_parse_one(ls: Seq<Seq<u8>>) -> Option<(SourceItemV, int)> {
    if ls.len() == 0 {
        Option::None
    } else if is_attr_start_line(ls[0]) || text::has_prefix(ls[0], decl::bs_pub_struct())
        || text::has_prefix(ls[0], decl::bs_pub_enum()) {
        match spec_collect_run(ls) {
            Option::None => Option::None,
            Option::Some(run) => {
                if run.2 >= ls.len() {
                    Option::None
                } else {
                    let hdr = ls[run.2];
                    if text::has_prefix(hdr, decl::bs_pub_struct()) {
                        match spec_parse_struct_header(hdr) {
                            Option::None => Option::None,
                            Option::Some(name) => match spec_parse_struct_body(
                                ls.subrange(run.2 + 1, ls.len() as int),
                                Seq::empty(),
                                Seq::empty(),
                            ) {
                                Option::None => Option::None,
                                Option::Some(body) => Option::Some(
                                    (
                                        SourceItemV::Struct(
                                            (StructDeclV {
                                                derives: run.0,
                                                attrs: run.1,
                                                name: name,
                                                fields: body.0,
                                            }),
                                        ),
                                        run.2 + 1 + body.1,
                                    ),
                                ),
                            },
                        }
                    } else if text::has_prefix(hdr, decl::bs_pub_enum()) {
                        match spec_parse_enum_header(hdr) {
                            Option::None => Option::None,
                            Option::Some(name) => match spec_parse_enum_body(
                                ls.subrange(run.2 + 1, ls.len() as int),
                                Seq::empty(),
                                Seq::empty(),
                            ) {
                                Option::None => Option::None,
                                Option::Some(body) => Option::Some(
                                    (
                                        SourceItemV::Enum(
                                            (EnumDeclV {
                                                derives: run.0,
                                                attrs: run.1,
                                                name: name,
                                                variants: body.0,
                                            }),
                                        ),
                                        run.2 + 1 + body.1,
                                    ),
                                ),
                            },
                        }
                    } else {
                        Option::None
                    }
                }
            },
        }
    } else {
        Option::Some((SourceItemV::Passthrough(ls[0]), 1))
    }
}

/// Parses a whole line list into a declaration tree.
pub open spec fn spec_parse_items(ls: Seq<Seq<u8>>) -> Option<Seq<SourceItemV>>
    decreases ls.len(),
{
    if ls.len() == 0 {
        Option::Some(Seq::empty())
    } else {
        match spec_parse_one(ls) {
            Option::None => Option::None,
            Option::Some(r) => {
                if 1 <= r.1 <= ls.len() {
                    match spec_parse_items(ls.subrange(r.1, ls.len() as int)) {
                        Option::None => Option::None,
                        Option::Some(rest) => Option::Some(seq![r.0] + rest),
                    }
                } else {
                    Option::None
                }
            },
        }
    }
}

/// Parses a whole text: its lines, then its items.
pub open spec fn spec_parse_source(t: Seq<u8>) -> Option<Seq<SourceItemV>> {
    spec_parse_items(text::spec_split_lines(t))
}

/// The line suffix starting at `i`.
pub open spec fn lines_from(lines: Seq<Vec<u8>>, i: int) -> Seq<Seq<u8>> {
    text::view2(lines).subrange(i, lines.len() as int)
}

/// Executable test for an attribute or doc-comment line.
pub fn is_attr_start(l: &Vec<u8>) -> (r: bool)
    ensures
        r == is_attr_start_line(l@),
{
    let a = decl::lit_attr_start();
    let d = decl::lit_doc_start();
    text::starts_with(l, &a) || text::starts_with(l, &d)
}

/// Length of the leading identifier run.
pub fn ident_run(v: &Vec<u8>) -> (n: usize)
    ensures
        n as int == ident_run_len(v@),
        n <= v@.len(),
{
    let mut i: usize = 0;
    while i < v.len()
        invariant
            0 <= i <= v@.len(),
            forall|j: int| 0 <= j < i ==> decl::is_ident_byte(#[trigger] v@[j]),
        decreases v@.len() - i,
    {
        if !decl::ident_byte(v[i]) {
            proof {
                lemma_ident_run_at(v@, i as int);
            }
            return i;
        }
        i += 1;
    }
    proof {
        lemma_ident_run_at(v@, i as int);
    }
    i
}

/// Parses an unindented field line.
pub fn parse_field_line(u: &Vec<u8>) -> (r: Option<(Vec<u8>, Vec<u8>)>)
    ensures
        match r {
            Option::Some(p) => spec_parse_field_line(u@) == Option::Some((p.0@, p.1@)),
            Option::None => spec_parse_field_line(u@) matches Option::None,
        },
{
    let pfx = decl::lit_pub_space();
    if !text::starts_with(u, &pfx) {
        return Option::None;
    }
    let v = text::slice_range(u, 4, u.len());
    let ghost vs = u@.subrange(4, u@.len() as int);
    proof {
        assert(v@ == vs);
    }
    let n = ident_run(&v);
    if n == 0 {
        return Option::None;
    }
    if v.len() - n < 4 {
        proof {
            assert(vs.len() < ident_run_len(vs) + 4);
        }
        return Option::None;
    }
    if v[n] != 58 || v[n + 1] != 32 {
        proof {
            assert(vs.subrange(n as int, n as int + 2) != decl::bs_colon_space()) by {
                if vs.subrange(n as int, n as int + 2) == decl::bs_colon_space() {
                    assert(vs.subrange(n as int, n as int + 2)[0] == vs[n as int]);
                    assert(vs.subrange(n as int, n as int + 2)[1] == vs[n as int + 1]);
                }
            }
        }
        return Option::None;
    }
    proof {
        assert(vs.subrange(n as int, n as int + 2) =~= decl::bs_colon_space());
    }
    if v[v.len() - 1] != 44 {
        return Option::None;
    }
    let name = text::slice_range(&v, 0, n);
    let ty = text::slice_range(&v, n + 2, v.len() - 1);
    Option::Some((name, ty))
}

/// Parses an unindented variant line.
pub fn parse_variant_line(u: &Vec<u8>) -> (r: Option<(Vec<u8>, Option<Vec<u8>>)>)
    ensures
        match r {
            Option::Some(p) => spec_parse_variant_line(u@) == Option::Some(
                (
                    p.0@,
                    match p.1 {
                        Option::Some(d) => Option::Some(d@),
                        Option::None => Option::<Seq<u8>>::None,
                    },
                ),
            ),
            Option::None => spec_parse_variant_line(u@) matches Option::None,
        },
{
    let n = ident_run(u);
    if n == 0 {
        return Option::None;
    }
    if u.len() - n == 1 {
        if u[n] == 44 {
            let name = text::slice_range(u, 0, n);
            return Option::Some((name, Option::None));
        } else {
            return Option::None;
        }
    }
    if u.len() - n < 5 {
        return Option::None;
    }
    if u[n] != 32 || u[n + 1] != 61 || u[n + 2] != 32 {
        proof {
            assert(u@.subrange(n as int, n as int + 3) != decl::bs_eq_sep()) by {
                if u@.subrange(n as int, n as int + 3) == decl::bs_eq_sep() {
                    assert(u@.subrange(n as int, n as int + 3)[0] == u@[n as int]);
                    assert(u@.subrange(n as int, n as int + 3)[1] == u@[n as int + 1]);
                    assert(u@.subrange(n as int, n as int + 3)[2] == u@[n as int + 2]);
                }
            }
        }
        return Option::None;
    }
    proof {
        assert(u@.subrange(n as int, n as int + 3) =~= decl::bs_eq_sep());
    }
    if u[u.len() - 1] != 44 {
        return Option::None;
    }
    let d = text::slice_range(u, n + 3, u.len() - 1);
    let mut i: usize = 0;
    while i < d.len()
        invariant
            n as int == ident_run_len(u@),
            n > 0,
            u@.len() >= n + 5,
            u@.subrange(n as int, n as int + 3) == decl::bs_eq_sep(),
            u@[u@.len() - 1] == 44u8,
            d@ == u@.subrange(n as int + 3, u@.len() - 1),
            0 <= i <= d@.len(),
            forall|j: int| 0 <= j < i ==> decl::is_digit_byte(#[trigger] d@[j]),
        decreases d@.len() - i,
    {
        if !decl::digit_byte(d[i]) {
            proof {
                let dd = u@.subrange(n as int + 3, u@.len() - 1);
                assert(!decl::is_digit_byte(dd[i as int]));
            }
            return Option::None;
        }
        i += 1;
    }
    let name = text::slice_range(u, 0, n);
    Option::Some((name, Option::Some(d)))
}

/// Parses a struct header line.
pub fn parse_struct_header(l: &Vec<u8>) -> (r: Option<Vec<u8>>)
    ensures
        match r {
            Option::Some(name) => spec_parse_struct_header(l@) == Option::Some(name@),
            Option::None => spec_parse_struct_header(l@) matches Option::None,
        },
{
    let pfx = decl::lit_pub_struct();
    if !text::starts_with(l, &pfx) {
        return Option::None;
    }
    if l.len() < pfx.len() + 3 {
        return Option::None;
    }
    if l[l.len() - 2] != 32 || l[l.len() - 1] != 123 {
        proof {
            assert(l@.subrange(l@.len() - 2, l@.len() as int) != decl::bs_space_brace()) by {
                if l@.subrange(l@.len() - 2, l@.len() as int) == decl::bs_space_brace() {
                    assert(l@.subrange(l@.len() - 2, l@.len() as int)[0] == l@[l@.len() - 2]);
                    assert(l@.subrange(l@.len() - 2, l@.len() as int)[1] == l@[l@.len() - 1]);
                }
            }
        }
        return Option::None;
    }
    proof {
        assert(l@.subrange(l@.len() - 2, l@.len() as int) =~= decl::bs_space_brace());
    }
    Option::Some(text::slice_range(l, pfx.len(), l.len() - 2))
}

/// Parses an enum header line.
pub fn parse_enum_header(l: &Vec<u8>) -> (r: Option<Vec<u8>>)
    ensures
        match r {
            Option::Some(name) => spec_parse_enum_header(l@) == Option::Some(name@),
            Option::None => spec_parse_enum_header(l@) matches Option::None,
        },
{
    let pfx = decl::lit_pub_enum();
    if !text::starts_with(l, &pfx) {
        return Option::None;
    }
    if l.len() < pfx.len() + 3 {
        return Option::None;
    }
    if l[l.len() - 2] != 32 || l[l.len() - 1] != 123 {
        proof {
            assert(l@.subrange(l@.len() - 2, l@.len() as int) != decl::bs_space_brace()) by {
                if l@.subrange(l@.len() - 2, l@.len() as int) == decl::bs_space_brace() {
                    assert(l@.subrange(l@.len() - 2, l@.len() as int)[0] == l@[l@.len() - 2]);
                    assert(l@.subrange(l@.len() - 2, l@.len() as int)[1] == l@[l@.len() - 1]);
                }
            }
        }
        return Option::None;
    }
    proof {
        assert(l@.subrange(l@.len() - 2, l@.len() as int) =~= decl::bs_space_brace());
    }
    Option::Some(text::slice_range(l, pfx.len(), l.len() - 2))
}

/// Splits derive-list text on the comma separator.
pub fn split_derives(inner: &Vec<u8>) -> (r: Vec<Vec<u8>>)
    ensures
        text::view2(r@) == split_sep(inner@, decl::bs_comma_space()),
{
    let ghost sep = decl::bs_comma_space();
    let mut out: Vec<Vec<u8>> = Vec::new();
    let mut cur: Vec<u8> = Vec::new();
    let mut pos: usize = 0;
    proof {
        assert(inner@.subrange(0, inner@.len() as int) =~= inner@);
        assert(text::view2(out@) =~= Seq::<Seq<u8>>::empty());
        assert(Seq::<Seq<u8>>::empty() + split_sep_aux(inner@, sep, cur@) =~= split_sep_aux(
            inner@,
            sep,
            cur@,
        ));
    }
    while pos < inner.len()
        invariant
            0 <= pos <= inner@.len(),
            split_sep(inner@, sep) == text::view2(out@) + split_sep_aux(
                inner@.subrange(pos as int, inner@.len() as int),
                sep,
                cur@,
            ),
            sep == decl::bs_comma_space(),
        decreases inner@.len() - pos,
    {
        let ghost rem = inner@.subrange(pos as int, inner@.len() as int);
        if pos + 1 < inner.len() && inner[pos] == 44 && inner[pos + 1] == 32 {
            proof {
                assert(rem.subrange(0, 2) =~= inner@.subrange(pos as int, pos + 2));
                assert(rem.subrange(0, 2)[0] == 44u8 && rem.subrange(0, 2)[1] == 32u8);
                assert(rem.subrange(0, 2) =~= sep);
                assert(text::has_prefix(rem, sep));
                assert(rem.subrange(2, rem.len() as int) =~= inner@.subrange(
                    pos + 2,
                    inner@.len() as int,
                ));
                text::lemma_view2_push(out@, cur);
                assert(text::view2(out@).push(cur@) + split_sep_aux(
                    inner@.subrange(pos + 2, inner@.len() as int),
                    sep,
                    Seq::<u8>::empty(),
                ) =~= text::view2(out@) + (seq![cur@] + split_sep_aux(
                    inner@.subrange(pos + 2, inner@.len() as int),
                    sep,
                    Seq::<u8>::empty(),
                )));
            }
            out.push(cur);
            cur = Vec::new();
            pos += 2;
            proof {
                assert(cur@ =~= Seq::<u8>::empty());
            }
        } else {
            proof {
                assert(!text::has_prefix(rem, sep)) by {
                    if text::has_prefix(rem, sep) {
                        assert(rem.subrange(0, 2)[0] == sep[0]);
                        assert(rem.subrange(0, 2)[1] == sep[1]);
                        assert(rem[0] == 44u8 && rem[1] == 32u8);
                        assert(inner@[pos as int] == 44u8);
                        assert(inner@[pos + 1] == 32u8);
                    }
                }
                assert(rem[0] == inner@[pos as int]);
                assert(rem.subrange(1, rem.len() as int) =~= inner@.subrange(
                    pos + 1,
                    inner@.len() as int,
                ));
            }
            cur.push(inner[pos]);
            pos += 1;
        }
    }
    proof {
        assert(inner@.subrange(pos as int, inner@.len() as int) =~= Seq::<u8>::empty());
        let fin = split_sep_aux(Seq::<u8>::empty(), sep, cur@);
        assert(fin == seq![cur@ + Seq::<u8>::empty()]);
        assert(cur@ + Seq::<u8>::empty() =~= cur@);
        text::lemma_view2_push(out@, cur);
        assert(text::view2(out@) + seq![cur@] =~= text::view2(out@).push(cur@));
    }
    out.push(cur);
    out
}

/// Parses a derive line into its derive names.
pub fn parse_derive_names(l: &Vec<u8>) -> (r: Option<Vec<Vec<u8>>>)
    ensures
        match r {
            Option::Some(names) => spec_parse_derive_names(l@) == Option::Some(
                text::view2(names@),
            ),
            Option::None => spec_parse_derive_names(l@) matches Option::None,
        },
{
    let opn = decl::lit_derive_open();
    if !text::starts_with(l, &opn) {
        return Option::None;
    }
    if l.len() < opn.len() + 2 {
        return Option::None;
    }
    if l[l.len() - 2] != 41 || l[l.len() - 1] != 93 {
        proof {
            assert(l@.subrange(l@.len() - 2, l@.len() as int) != decl::bs_derive_close()) by {
                if l@.subrange(l@.len() - 2, l@.len() as int) == decl::bs_derive_close() {
                    assert(l@.subrange(l@.len() - 2, l@.len() as int)[0] == l@[l@.len() - 2]);
                    assert(l@.subrange(l@.len() - 2, l@.len() as int)[1] == l@[l@.len() - 1]);
                }
            }
        }
        return Option::None;
    }
    proof {
        assert(l@.subrange(l@.len() - 2, l@.len() as int) =~= decl::bs_derive_close());
    }
    let inner = text::slice_range(l, opn.len(), l.len() - 2);
    if inner.len() == 0 {
        let empty: Vec<Vec<u8>> = Vec::new();
        proof {
            assert(text::view2(empty@) =~= Seq::<Seq<u8>>::empty());
        }
        return Option::Some(empty);
    }
    Option::Some(split_derives(&inner))
}

/// Collects the leading attribute-line run from line `i`.
pub fn collect_run(lines: &Vec<Vec<u8>>, i: usize) -> (r: Option<(Vec<Vec<u8>>, Vec<Vec<u8>>, usize)>)
    requires
        i <= lines@.len(),
    ensures
        match r {
            Option::Some(t) => spec_collect_run(lines_from(lines@, i as int)) == Option::Some(
                (text::view2(t.0@), text::view2(t.1@), t.2 as int),
            ) && i + t.2 <= lines@.len(),
            Option::None => spec_collect_run(lines_from(lines@, i as int)) matches Option::None,
        },
    decreases lines@.len() - i,
{
    let ghost s = lines_from(lines@, i as int);
    if i == lines.len() {
        let d: Vec<Vec<u8>> = Vec::new();
        let a: Vec<Vec<u8>> = Vec::new();
        proof {
            assert(s.len() == 0);
            assert(text::view2(d@) =~= Seq::<Seq<u8>>::empty());
        }
        return Option::Some((d, a, 0));
    }
    proof {
        assert(s[0] == lines@[i as int]@);
        assert(s.subrange(1, s.len() as int) =~= lines_from(lines@, i as int + 1));
    }
    let l0 = &lines[i];
    if !is_attr_start(l0) {
        let d: Vec<Vec<u8>> = Vec::new();
        let a: Vec<Vec<u8>> = Vec::new();
        proof {
            assert(text::view2(d@) =~= Seq::<Seq<u8>>::empty());
        }
        return Option::Some((d, a, 0));
    }
    let dop = decl::lit_derive_open();
    if text::starts_with(l0, &dop) {
        match parse_derive_names(l0) {
            Option::None => Option::None,
            Option::Some(names) => {
                match collect_run(lines, i + 1) {
                    Option::None => Option::None,
                    Option::Some((d, a, k)) => {
                        let ghost nv = text::view2(names@);
                        let ghost dv = text::view2(d@);
                        let mut merged = names;
                        text::append_lines(&mut merged, d);
                        proof {
                            assert(text::view2(merged@) =~= nv + dv);
                        }
                        Option::Some((merged, a, k + 1))
                    },
                }
            },
        }
    } else {
        match collect_run(lines, i + 1) {
            Option::None => Option::None,
            Option::Some((d, a, k)) => {
                let ghost av = text::view2(a@);
                let mut attrs: Vec<Vec<u8>> = Vec::new();
                let first = crate::preprocess::clone_bytes(l0);
                attrs.push(first);
                text::append_lines(&mut attrs, a);
                proof {
                    assert(text::view2(attrs@) =~= seq![lines@[i as int]@] + av);
                }
                Option::Some((d, attrs, k + 1))
            },
        }
    }
}

/// Parses a struct body from line `i`.
pub fn parse_struct_body(
    lines: &Vec<Vec<u8>>,
    i: usize,
    pend: Vec<Vec<u8>>,
    acc: Vec<FieldDecl>,
) -> (r: Option<(Vec<FieldDecl>, usize)>)
    requires
        i <= lines@.len(),
    ensures
        match r {
            Option::Some(t) => spec_parse_struct_body(
                lines_from(lines@, i as int),
                text::view2(pend@),
                decl::fields_view(acc@),
            ) == Option::Some((decl::fields_view(t.0@), t.1 as int)) && 1 <= t.1 && i + t.1
                <= lines@.len(),
            Option::None => spec_parse_struct_body(
                lines_from(lines@, i as int),
                text::view2(pend@),
                decl::fields_view(acc@),
            ) matches Option::None,
        },
    decreases lines@.len() - i,
{
    let ghost s = lines_from(lines@, i as int);
    let ghost pv = text::view2(pend@);
    let ghost av = decl::fields_view(acc@);
    if i == lines.len() {
        proof {
            assert(s.len() == 0);
        }
        return Option::None;
    }
    proof {
        assert(s[0] == lines@[i as int]@);
        assert(s.subrange(1, s.len() as int) =~= lines_from(lines@, i as int + 1));
    }
    let l0 = &lines[i];
    let cb = decl::lit_close_brace();
    if text::eq_bytes(l0, &cb) {
        if pend.len() == 0 {
            proof {
                assert(pv.len() == 0);
            }
            return Option::Some((acc, 1));
        } else {
            return Option::None;
        }
    }
    let ind = decl::lit_indent();
    if !text::starts_with(l0, &ind) {
        return Option::None;
    }
    let u = text::slice_range(l0, 4, l0.len());
    proof {
        assert(u@ == s[0].subrange(4, s[0].len() as int));
    }
    if is_attr_start(&u) {
        let ghost uv = u@;
        let mut pend2 = pend;
        pend2.push(u);
        proof {
            assert(text::view2(pend2@) =~= pv.push(uv));
        }
        match parse_struct_body(lines, i + 1, pend2, acc) {
            Option::None => Option::None,
            Option::Some((fs, k)) => Option::Some((fs, k + 1)),
        }
    } else {
        match parse_field_line(&u) {
            Option::None => Option::None,
            Option::Some((name, ty)) => {
                let ghost nv = name@;
                let ghost tv = ty@;
                let mut acc2 = acc;
                acc2.push(FieldDecl { attrs: pend, name: name, ty: ty });
                proof {
                    assert(decl::fields_view(acc2@) =~= av.push(
                        (FieldDeclV { attrs: pv, name: nv, ty: tv }),
                    ));
                }
                let fresh: Vec<Vec<u8>> = Vec::new();
                proof {
                    assert(text::view2(fresh@) =~= Seq::<Seq<u8>>::empty());
                }
                match parse_struct_body(lines, i + 1, fresh, acc2) {
                    Option::None => Option::None,
                    Option::Some((fs, k)) => Option::Some((fs, k + 1)),
                }
            },
        }
    }
}

/// Parses an enum body from line `i`.
pub fn parse_enum_body(
    lines: &Vec<Vec<u8>>,
    i: usize,
    pend: Vec<Vec<u8>>,
    acc: Vec<VariantDecl>,
) -> (r: Option<(Vec<VariantDecl>, usize)>)
    requires
        i <= lines@.len(),
    ensures
        match r {
            Option::Some(t) => spec_parse_enum_body(
                lines_from(lines@, i as int),
                text::view2(pend@),
                decl::variants_view(acc@),
            ) == Option::Some((decl::variants_view(t.0@), t.1 as int)) && 1 <= t.1 && i + t.1
                <= lines@.len(),
            Option::None => spec_parse_enum_body(
                lines_from(lines@, i as int),
                text::view2(pend@),
                decl::variants_view(acc@),
            ) matches Option::None,
        },
    decreases lines@.len() - i,
{
    let ghost s = lines_from(lines@, i as int);
    let ghost pv = text::view2(pend@);
    let ghost av = decl::variants_view(acc@);
    if i == lines.len() {
        proof {
            assert(s.len() == 0);
        }
        return Option::None;
    }
    proof {
        assert(s[0] == lines@[i as int]@);
        assert(s.subrange(1, s.len() as int) =~= lines_from(lines@, i as int + 1));
    }
    let l0 = &lines[i];
    let cb = decl::lit_close_brace();
    if text::eq_bytes(l0, &cb) {
        if pend.len() == 0 {
            proof {
                assert(pv.len() == 0);
            }
            return Option::Some((acc, 1));
        } else {
            return Option::None;
        }
    }
    let ind = decl::lit_indent();
    if !text::starts_with(l0, &ind) {
        return Option::None;
    }
    let u = text::slice_range(l0, 4, l0.len());
    proof {
        assert(u@ == s[0].subrange(4, s[0].len() as int));
    }
    if is_attr_start(&u) {
        let ghost uv = u@;
        let mut pend2 = pend;
        pend2.push(u);
        proof {
            assert(text::view2(pend2@) =~= pv.push(uv));
        }
        match parse_enum_body(lines, i + 1, pend2, acc) {
            Option::None => Option::None,
            Option::Some((vs, k)) => Option::Some((vs, k + 1)),
        }
    } else {
        match parse_variant_line(&u) {
            Option::None => Option::None,
            Option::Some((name, discr)) => {
                let ghost nv = name@;
                let ghost dv: Option<Seq<u8>> = match discr {
                    Option::Some(ref d) => Option::Some(d@),
                    Option::None => Option::None,
                };
                let mut acc2 = acc;
                acc2.push(VariantDecl { attrs: pend, name: name, discr: discr });
                proof {
                    assert(decl::variants_view(acc2@) =~= av.push(
                        (VariantDeclV { attrs: pv, name: nv, discr: dv }),
                    ));
                }
                let fresh: Vec<Vec<u8>> = Vec::new();
                proof {
                    assert(text::view2(fresh@) =~= Seq::<Seq<u8>>::empty());
                }
                match parse_enum_body(lines, i + 1, fresh, acc2) {
                    Option::None => Option::None,
                    Option::Some((vs, k)) => Option::Some((vs, k + 1)),
                }
            },
        }
    }
}

/// Parses one item from line `i`, returning it and the number of lines
/// consumed.
pub fn parse_one(lines: &Vec<Vec<u8>>, i: usize) -> (r: Option<(SourceItem, usize)>)
    requires
        i < lines@.len(),
    ensures
        match r {
            Option::Some(t) => spec_parse_one(lines_from(lines@, i as int)) == Option::Some(
                (t.0@, t.1 as int),
            ) && 1 <= t.1 && i + t.1 <= lines@.len(),
            Option::None => spec_parse_one(lines_from(lines@, i as int)) matches Option::None,
        },
{
    let ghost s = lines_from(lines@, i as int);
    proof {
        assert(s[0] == lines@[i as int]@);
    }
    let l0 = &lines[i];
    let ps = decl::lit_pub_struct();
    let pe = decl::lit_pub_enum();
    let head_attr = is_attr_start(l0);
    let head_struct = text::starts_with(l0, &ps);
    let head_enum = text::starts_with(l0, &pe);
    if head_attr || head_struct || head_enum {
        match collect_run(lines, i) {
            Option::None => Option::None,
            Option::Some((derives, attrs, m)) => {
                if m >= lines.len() - i {
                    proof {
                        assert(m >= s.len());
                    }
                    return Option::None;
                }
                proof {
                    assert(s[m as int] == lines@[i + m]@);
                    assert(s.subrange(m as int + 1, s.len() as int) =~= lines_from(
                        lines@,
                        i + m + 1,
                    ));
                }
                let hdr = &lines[i + m];
                if text::starts_with(hdr, &ps) {
                    match parse_struct_header(hdr) {
                        Option::None => Option::None,
                        Option::Some(name) => {
                            let fresh1: Vec<Vec<u8>> = Vec::new();
                            let fresh2: Vec<FieldDecl> = Vec::new();
                            proof {
                                assert(text::view2(fresh1@) =~= Seq::<Seq<u8>>::empty());
                                assert(decl::fields_view(fresh2@) =~= Seq::<FieldDeclV>::empty());
                            }
                            match parse_struct_body(lines, i + m + 1, fresh1, fresh2) {
                                Option::None => Option::None,
                                Option::Some((fields, k)) => {
                                    let it = SourceItem::Struct(
                                        StructDecl {
                                            derives: derives,
                                            attrs: attrs,
                                            name: name,
                                            fields: fields,
                                        },
                                    );
                                    Option::Some((it, m + 1 + k))
                                },
                            }
                        },
                    }
                } else if text::starts_with(hdr, &pe) {
                    match parse_enum_header(hdr) {
                        Option::None => Option::None,
                        Option::Some(name) => {
                            let fresh1: Vec<Vec<u8>> = Vec::new();
                            let fresh2: Vec<VariantDecl> = Vec::new();
                            proof {
                                assert(text::view2(fresh1@) =~= Seq::<Seq<u8>>::empty());
                                assert(decl::variants_view(fresh2@) =~= Seq::<VariantDeclV>::empty());
                            }
                            match parse_enum_body(lines, i + m + 1, fresh1, fresh2) {
                                Option::None => Option::None,
                                Option::Some((variants, k)) => {
                                    let it = SourceItem::Enum(
                                        EnumDecl {
                                            derives: derives,
                                            attrs: attrs,
                                            name: name,
                                            variants: variants,
                                        },
                                    );
                                    Option::Some((it, m + 1 + k))
                                },
                            }
                        },
                    }
                } else {
                    Option::None
                }
            },
        }
    } else {
        let line = crate::preprocess::clone_bytes(l0);
        Option::Some((SourceItem::Passthrough(line), 1))
    }
}

/// Parses a whole line list into a declaration tree; `None` is a parse
/// failure.
pub fn parse_lines(lines: &Vec<Vec<u8>>) -> (r: Option<Vec<SourceItem>>)
    ensures
        match r {
            Option::Some(items) => spec_parse_items(text::view2(lines@)) == Option::Some(
                decl::items_view(items@),
            ),
            Option::None => spec_parse_items(text::view2(lines@)) matches Option::None,
        },
{
    let ghost whole = text::view2(lines@);
    let mut out: Vec<SourceItem> = Vec::new();
    let mut i: usize = 0;
    proof {
        assert(lines_from(lines@, 0) =~= whole);
        assert(decl::items_view(out@) =~= Seq::<SourceItemV>::empty());
    }
    while i < lines.len()
        invariant
            whole == text::view2(lines@),
            0 <= i <= lines@.len(),
            spec_parse_items(whole) == (match spec_parse_items(lines_from(lines@, i as int)) {
                Option::None => Option::<Seq<SourceItemV>>::None,
                Option::Some(rest) => Option::Some(decl::items_view(out@) + rest),
            }),
        decreases lines@.len() - i,
    {
        let ghost s = lines_from(lines@, i as int);
        match parse_one(lines, i) {
            Option::None => {
                proof {
                    assert(spec_parse_items(s) matches Option::None);
                }
                return Option::None;
            },
            Option::Some((it, k)) => {
                proof {
                    assert(s.subrange(k as int, s.len() as int) =~= lines_from(lines@, i + k));
                    assert(decl::items_view(out@.push(it)) =~= decl::items_view(out@).push(it@));
                }
                let ghost itv = it@;
                let ghost out_pre = decl::items_view(out@);
                out.push(it);
                proof {
                    match spec_parse_items(lines_from(lines@, i + k)) {
                        Option::Some(rest) => {
                            assert(decl::items_view(out@) + rest =~= out_pre + (seq![itv] + rest));
                        },
                        Option::None => {},
                    }
                }
                i = i + k;
            },
        }
    }
    proof {
        assert(lines_from(lines@, i as int).len() == 0);
        assert(decl::items_view(out@) + Seq::<SourceItemV>::empty() =~= decl::items_view(out@));
    }
    Option::Some(out)
}

/// Parses a whole text into a declaration tree; `None` is a parse failure.
pub fn parse_source(t: &Vec<u8>) -> (r: Option<Vec<SourceItem>>)
    ensures
        match r {
            Option::Some(items) => spec_parse_source(t@) == Option::Some(
                decl::items_view(items@),
            ),
            Option::None => spec_parse_source(t@) matches Option::None,
        },
{
    let lines = text::split_lines(t);
    parse_lines(&lines)
}

} // verus!
