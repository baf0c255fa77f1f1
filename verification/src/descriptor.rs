//! Descriptor decoder: parses a binary schema descriptor set (the standard
//! FileDescriptorSet wire format) into the schema index.
//!
//! The decoder reads base-128 varints and length-delimited ranges, keeps
//! the fields the transform rules consult (package and type names, field
//! names, numbers, kinds, labels, json names, one-of indices, enum values),
//! skips everything else field by field, and fails — fatally for the run —
//! on any malformed payload. Later occurrences of a singular field
//! overwrite earlier ones; repeated message fields append in order.

use vstd::prelude::*;

use crate::pipeline::PipelineError;
use crate::schema::{
    FieldSchema, FieldSchemaV, MessageSchema, MessageSchemaV, EnumValueSchema, EnumValueSchemaV,
    EnumSchema, EnumSchemaV, SchemaFile, SchemaFileV, SchemaSet, SchemaSetV,
};

verus! {

/// A base-128 varint read left to right within `[i, end)`.
pub open spec fn spec_varint(s: Seq<u8>, i: int, end: int) -> Option<(nat, int)>
    decreases end - i,
{
    if i < 0 || i >= end || end > s.len() {
        Option::None
    } else if s[i] < 128 {
        Option::Some((s[i] as nat, i + 1))
    } else {
        match spec_varint(s, i + 1, end) {
            Option::None => Option::None,
            Option::Some(r) => Option::Some((((s[i] - 128) as nat + 128 * r.0), r.1)),
        }
    }
}

/// A varint whose value fits 64 bits; larger values are malformed.
pub open spec fn spec_varint64(s: Seq<u8>, i: int, end: int) -> Option<(u64, int)> {
    match spec_varint(s, i, end) {
        Option::None => Option::None,
        Option::Some(r) => if r.0 < 0x10000000000000000 {
            Option::Some((r.0 as u64, r.1))
        } else {
            Option::None
        },
    }
}

pub proof fn lemma_varint_bounds(s: Seq<u8>, i: int, end: int)
    ensures
        match spec_varint(s, i, end) {
            Option::Some(r) => i < r.1 <= end && end <= s.len(),
            Option::None => true,
        },
    decreases end - i,
{
    if i < 0 || i >= end || end > s.len() {
    } else if s[i] < 128 {
    } else {
        lemma_varint_bounds(s, i + 1, end);
    }
}

/// Reads a varint, rejecting values that do not fit 64 bits.
pub fn decode_varint(s: &Vec<u8>, i: usize, end: usize) -> (r: Option<(u64, usize)>)
    requires
        i <= end <= s@.len(),
    ensures
        match r {
            Option::Some(p) => spec_varint64(s@, i as int, end as int) == Option::Some(
                (p.0, p.1 as int),
            ) && i < p.1 <= end,
            Option::None => spec_varint64(s@, i as int, end as int) matches Option::None,
        },
    decreases end - i,
{
    if i == end {
        return Option::None;
    }
    let b = s[i];
    if b < 128 {
        return Option::Some((b as u64, i + 1));
    }
    match decode_varint(s, i + 1, end) {
        Option::None => Option::None,
        Option::Some((v, j)) => {
            let g: u64 = (b - 128) as u64;
            if v < 0x200000000000000 {
                proof {
                    assert((b - 128) as nat + 128 * (v as nat) < 0x10000000000000000);
                }
                Option::Some((g + 128 * v, j))
            } else {
                proof {
                    assert((b - 128) as nat + 128 * (v as nat) >= 0x10000000000000000);
                }
                Option::None
            }
        },
    }
}

/// Skips one field's payload of the given wire type.
pub open spec fn spec_skip(s: Seq<u8>, i: int, end: int, wire: u64) -> Option<int> {
    if wire == 0 {
        match spec_varint64(s, i, end) {
            Option::None => Option::None,
            Option::Some(r) => Option::Some(r.1),
        }
    } else if wire == 1 {
        if i + 8 <= end {
            Option::Some(i + 8)
        } else {
            Option::None
        }
    } else if wire == 5 {
        if i + 4 <= end {
            Option::Some(i + 4)
        } else {
            Option::None
        }
    } else if wire == 2 {
        match spec_varint64(s, i, end) {
            Option::None => Option::None,
            Option::Some(r) => if r.1 + r.0 <= end {
                Option::Some(r.1 + r.0 as int)
            } else {
                Option::None
            },
        }
    } else {
        Option::None
    }
}

pub proof fn lemma_skip_bounds(s: Seq<u8>, i: int, end: int, wire: u64)
    requires
        0 <= i,
    ensures
        match spec_skip(s, i, end, wire) {
            Option::Some(j) => i < j <= end,
            Option::None => true,
        },
{
    lemma_varint_bounds(s, i, end);
}

/// Skips one field's payload.
pub fn skip_field(s: &Vec<u8>, i: usize, end: usize, wire: u64) -> (r: Option<usize>)
    requires
        i <= end <= s@.len(),
    ensures
        match r {
            Option::Some(j) => spec_skip(s@, i as int, end as int, wire) == Option::Some(j as int)
                && i < j <= end,
            Option::None => spec_skip(s@, i as int, end as int, wire) matches Option::None,
        },
{
    if wire == 0 {
        match decode_varint(s, i, end) {
            Option::None => Option::None,
            Option::Some((_v, j)) => Option::Some(j),
        }
    } else if wire == 1 {
        if end - i >= 8 {
            Option::Some(i + 8)
        } else {
            Option::None
        }
    } else if wire == 5 {
        if end - i >= 4 {
            Option::Some(i + 4)
        } else {
            Option::None
        }
    } else if wire == 2 {
        match decode_varint(s, i, end) {
            Option::None => Option::None,
            Option::Some((l, j)) => {
                if l > (end - j) as u64 {
                    return Option::None;
                }
                Option::Some(j + (l as usize))
            },
        }
    } else {
        Option::None
    }
}

/// Reads a length-delimited range: its start and end.
pub open spec fn spec_len_range(s: Seq<u8>, i: int, end: int) -> Option<(int, int)> {
    match spec_varint64(s, i, end) {
        Option::None => Option::None,
        Option::Some(r) => if r.1 + r.0 <= end {
            Option::Some((r.1, r.1 + r.0 as int))
        } else {
            Option::None
        },
    }
}

pub fn read_len_range(s: &Vec<u8>, i: usize, end: usize) -> (r: Option<(usize, usize)>)
    requires
        i <= end <= s@.len(),
    ensures
        match r {
            Option::Some(p) => spec_len_range(s@, i as int, end as int) == Option::Some(
                (p.0 as int, p.1 as int),
            ) && i < p.0 <= p.1 <= end,
            Option::None => spec_len_range(s@, i as int, end as int) matches Option::None,
        },
{
    match decode_varint(s, i, end) {
        Option::None => Option::None,
        Option::Some((l, j)) => {
            if l > (end - j) as u64 {
                return Option::None;
            }
            Option::Some((j, j + (l as usize)))
        },
    }
}

pub open spec fn empty_field() -> FieldSchemaV {
    FieldSchemaV {
        name: Seq::empty(),
        number: 0,
        kind: 0,
        label: 0,
        json_name: Seq::empty(),
        oneof_index: Option::None,
    }
}

/// One FieldDescriptorProto: name (1), number (3), label (4), kind (5),
/// one-of index (9), json name (10); anything else skipped.
pub open spec fn spec_dec_field(s: Seq<u8>, i: int, end: int, acc: FieldSchemaV) -> Option<
    FieldSchemaV,
>
    decreases end - i,
    via dec_field_decreases
{
    if i >= end {
        if i == end {
            Option::Some(acc)
        } else {
            Option::None
        }
    } else {
        match spec_varint64(s, i, end) {
            Option::None => Option::None,
            Option::Some(kj) => {
                let fno = kj.0 / 8;
                let wire = kj.0 % 8;
                let j = kj.1;
                if fno == 1 && wire == 2 {
                    match spec_len_range(s, j, end) {
                        Option::None => Option::None,
                        Option::Some(ab) => spec_dec_field(
                            s,
                            ab.1,
                            end,
                            FieldSchemaV {
                                name: s.subrange(ab.0, ab.1),
                                number: acc.number,
                                kind: acc.kind,
                                label: acc.label,
                                json_name: acc.json_name,
                                oneof_index: acc.oneof_index,
                            },
                        ),
                    }
                } else if fno == 10 && wire == 2 {
                    match spec_len_range(s, j, end) {
                        Option::None => Option::None,
                        Option::Some(ab) => spec_dec_field(
                            s,
                            ab.1,
                            end,
                            FieldSchemaV {
                                name: acc.name,
                                number: acc.number,
                                kind: acc.kind,
                                label: acc.label,
                                json_name: s.subrange(ab.0, ab.1),
                                oneof_index: acc.oneof_index,
                            },
                        ),
                    }
                } else if fno == 3 && wire == 0 {
                    match spec_varint64(s, j, end) {
                        Option::None => Option::None,
                        Option::Some(vj) => spec_dec_field(
                            s,
                            vj.1,
                            end,
                            FieldSchemaV {
                                name: acc.name,
                                number: vj.0,
                                kind: acc.kind,
                                label: acc.label,
                                json_name: acc.json_name,
                                oneof_index: acc.oneof_index,
                            },
                        ),
                    }
                } else if fno == 4 && wire == 0 {
                    match spec_varint64(s, j, end) {
                        Option::None => Option::None,
                        Option::Some(vj) => spec_dec_field(
                            s,
                            vj.1,
                            end,
                            FieldSchemaV {
                                name: acc.name,
                                number: acc.number,
                                kind: acc.kind,
                                label: vj.0,
                                json_name: acc.json_name,
                                oneof_index: acc.oneof_index,
                            },
                        ),
                    }
                } else if fno == 5 && wire == 0 {
                    match spec_varint64(s, j, end) {
                        Option::None => Option::None,
                        Option::Some(vj) => spec_dec_field(
                            s,
                            vj.1,
                            end,
                            FieldSchemaV {
                                name: acc.name,
                                number: acc.number,
                                kind: vj.0,
                                label: acc.label,
                                json_name: acc.json_name,
                                oneof_index: acc.oneof_index,
                            },
                        ),
                    }
                } else if fno == 9 && wire == 0 {
                    match spec_varint64(s, j, end) {
                        Option::None => Option::None,
                        Option::Some(vj) => spec_dec_field(
                            s,
                            vj.1,
                            end,
                            FieldSchemaV {
                                name: acc.name,
                                number: acc.number,
                                kind: acc.kind,
                                label: acc.label,
                                json_name: acc.json_name,
                                oneof_index: Option::Some(vj.0),
                            },
                        ),
                    }
                } else {
                    match spec_skip(s, j, end, wire) {
                        Option::None => Option::None,
                        Option::Some(j2) => spec_dec_field(s, j2, end, acc),
                    }
                }
            },
        }
    }
}

#[via_fn]
proof fn dec_field_decreases(s: Seq<u8>, i: int, end: int, acc: FieldSchemaV) {
    lemma_varint_bounds(s, i, end);
    if 0 <= i < end {
        match spec_varint64(s, i, end) {
            Option::Some(kj) => {
                lemma_varint_bounds(s, kj.1, end);
                lemma_skip_bounds(s, kj.1, end, kj.0 % 8);
            },
            Option::None => {},
        }
    }
}

/// Decodes one FieldDescriptorProto range.
pub fn decode_field_desc(s: &Vec<u8>, start: usize, end: usize) -> (r: Option<FieldSchema>)
    requires
        start <= end <= s@.len(),
    ensures
        match r {
            Option::Some(f) => spec_dec_field(s@, start as int, end as int, empty_field())
                == Option::Some(f@),
            Option::None => spec_dec_field(s@, start as int, end as int, empty_field())
                matches Option::None,
        },
{
    let mut name: Vec<u8> = Vec::new();
    let mut number: u64 = 0;
    let mut kind: u64 = 0;
    let mut label: u64 = 0;
    let mut json_name: Vec<u8> = Vec::new();
    let mut oneof_index: Option<u64> = Option::None;
    let mut i: usize = start;
    proof {
        assert((FieldSchema {
            name: name,
            number: number,
            kind: kind,
            label: label,
            json_name: json_name,
            oneof_index: oneof_index,
        })@ =~= empty_field());
    }
    while i < end
        invariant
            start <= i <= end <= s@.len(),
            spec_dec_field(s@, start as int, end as int, empty_field()) == spec_dec_field(
                s@,
                i as int,
                end as int,
                (FieldSchemaV {
                    name: name@,
                    number: number,
                    kind: kind,
                    label: label,
                    json_name: json_name@,
                    oneof_index: oneof_index,
                }),
            ),
        decreases end - i,
    {
        match decode_varint(s, i, end) {
            Option::None => {
                return Option::None;
            },
            Option::Some((key, j)) => {
                let fno = key / 8;
                let wire = key % 8;
                if fno == 1 && wire == 2 {
                    match read_len_range(s, j, end) {
                        Option::None => {
                            return Option::None;
                        },
                        Option::Some((a, b)) => {
                            name = crate::text::slice_range(s, a, b);
                            i = b;
                        },
                    }
                } else if fno == 10 && wire == 2 {
                    match read_len_range(s, j, end) {
                        Option::None => {
                            return Option::None;
                        },
                        Option::Some((a, b)) => {
                            json_name = crate::text::slice_range(s, a, b);
                            i = b;
                        },
                    }
                } else if fno == 3 && wire == 0 {
                    match decode_varint(s, j, end) {
                        Option::None => {
                            return Option::None;
                        },
                        Option::Some((v, j2)) => {
                            number = v;
                            i = j2;
                        },
                    }
                } else if fno == 4 && wire == 0 {
                    match decode_varint(s, j, end) {
                        Option::None => {
                            return Option::None;
                        },
                        Option::Some((v, j2)) => {
                            label = v;
                            i = j2;
                        },
                    }
                } else if fno == 5 && wire == 0 {
                    match decode_varint(s, j, end) {
                        Option::None => {
                            return Option::None;
                        },
                        Option::Some((v, j2)) => {
                            kind = v;
                            i = j2;
                        },
                    }
                } else if fno == 9 && wire == 0 {
                    match decode_varint(s, j, end) {
                        Option::None => {
                            return Option::None;
                        },
                        Option::Some((v, j2)) => {
                            oneof_index = Option::Some(v);
                            i = j2;
                        },
                    }
                } else {
                    match skip_field(s, j, end, wire) {
                        Option::None => {
                            return Option::None;
                        },
                        Option::Some(j2) => {
                            i = j2;
                        },
                    }
                }
            },
        }
    }
    Option::Some(
        FieldSchema {
            name: name,
            number: number,
            kind: kind,
            label: label,
            json_name: json_name,
            oneof_index: oneof_index,
        },
    )
}

pub open spec fn empty_enum_value() -> EnumValueSchemaV {
    EnumValueSchemaV { name: Seq::empty(), number: 0 }
}

/// One EnumValueDescriptorProto: name (1) and number (2).
pub open spec fn spec_dec_enum_value(s: Seq<u8>, i: int, end: int, acc: EnumValueSchemaV) -> Option<
    EnumValueSchemaV,
>
    decreases end - i,
    via dec_enum_value_decreases
{
    if i >= end {
        if i == end {
            Option::Some(acc)
        } else {
            Option::None
        }
    } else {
        match spec_varint64(s, i, end) {
            Option::None => Option::None,
            Option::Some(kj) => {
                let fno = kj.0 / 8;
                let wire = kj.0 % 8;
                let j = kj.1;
                if fno == 1 && wire == 2 {
                    match spec_len_range(s, j, end) {
                        Option::None => Option::None,
                        Option::Some(ab) => spec_dec_enum_value(
                            s,
                            ab.1,
                            end,
                            EnumValueSchemaV { name: s.subrange(ab.0, ab.1), number: acc.number },
                        ),
                    }
                } else if fno == 2 && wire == 0 {
                    match spec_varint64(s, j, end) {
                        Option::None => Option::None,
                        Option::Some(vj) => spec_dec_enum_value(
                            s,
                            vj.1,
                            end,
                            EnumValueSchemaV { name: acc.name, number: vj.0 },
                        ),
                    }
                } else {
                    match spec_skip(s, j, end, wire) {
                        Option::None => Option::None,
                        Option::Some(j2) => spec_dec_enum_value(s, j2, end, acc),
                    }
                }
            },
        }
    }
}

#[via_fn]
proof fn dec_enum_value_decreases(s: Seq<u8>, i: int, end: int, acc: EnumValueSchemaV) {
    lemma_varint_bounds(s, i, end);
    if 0 <= i < end {
        match spec_varint64(s, i, end) {
            Option::Some(kj) => {
                lemma_varint_bounds(s, kj.1, end);
                lemma_skip_bounds(s, kj.1, end, kj.0 % 8);
            },
            Option::None => {},
        }
    }
}

pub fn decode_enum_value(s: &Vec<u8>, start: usize, end: usize) -> (r: Option<EnumValueSchema>)
    requires
        start <= end <= s@.len(),
    ensures
        match r {
            Option::Some(v) => spec_dec_enum_value(s@, start as int, end as int, empty_enum_value())
                == Option::Some(v@),
            Option::None => spec_dec_enum_value(s@, start as int, end as int, empty_enum_value())
                matches Option::None,
        },
{
    let mut name: Vec<u8> = Vec::new();
    let mut number: u64 = 0;
    let mut i: usize = start;
    proof {
        assert((EnumValueSchema { name: name, number: number })@ =~= empty_enum_value());
    }
    while i < end
        invariant
            start <= i <= end <= s@.len(),
            spec_dec_enum_value(s@, start as int, end as int, empty_enum_value())
                == spec_dec_enum_value(
                s@,
                i as int,
                end as int,
                (EnumValueSchemaV { name: name@, number: number }),
            ),
        decreases end - i,
    {
        match decode_varint(s, i, end) {
            Option::None => {
                return Option::None;
            },
            Option::Some((key, j)) => {
                let fno = key / 8;
                let wire = key % 8;
                if fno == 1 && wire == 2 {
                    match read_len_range(s, j, end) {
                        Option::None => {
                            return Option::None;
                        },
                        Option::Some((a, b)) => {
                            name = crate::text::slice_range(s, a, b);
                            i = b;
                        },
                    }
                } else if fno == 2 && wire == 0 {
                    match decode_varint(s, j, end) {
                        Option::None => {
                            return Option::None;
                        },
                        Option::Some((v, j2)) => {
                            number = v;
                            i = j2;
                        },
                    }
                } else {
                    match skip_field(s, j, end, wire) {
                        Option::None => {
                            return Option::None;
                        },
                        Option::Some(j2) => {
                            i = j2;
                        },
                    }
                }
            },
        }
    }
    Option::Some(EnumValueSchema { name: name, number: number })
}

pub open spec fn empty_enum_schema() -> EnumSchemaV {
    EnumSchemaV { name: Seq::empty(), values: Seq::empty() }
}

/// One EnumDescriptorProto: name (1) and values (2, repeated).
pub open spec fn spec_dec_enum(s: Seq<u8>, i: int, end: int, acc: EnumSchemaV) -> Option<EnumSchemaV>
    decreases end - i,
    via dec_enum_decreases
{
    if i >= end {
        if i == end {
            Option::Some(acc)
        } else {
            Option::None
        }
    } else {
        match spec_varint64(s, i, end) {
            Option::None => Option::None,
            Option::Some(kj) => {
                let fno = kj.0 / 8;
                let wire = kj.0 % 8;
                let j = kj.1;
                if fno == 1 && wire == 2 {
                    match spec_len_range(s, j, end) {
                        Option::None => Option::None,
                        Option::Some(ab) => spec_dec_enum(
                            s,
                            ab.1,
                            end,
                            EnumSchemaV { name: s.subrange(ab.0, ab.1), values: acc.values },
                        ),
                    }
                } else if fno == 2 && wire == 2 {
                    match spec_len_range(s, j, end) {
                        Option::None => Option::None,
                        Option::Some(ab) => match spec_dec_enum_value(
                            s,
                            ab.0,
                            ab.1,
                            empty_enum_value(),
                        ) {
                            Option::None => Option::None,
                            Option::Some(v) => spec_dec_enum(
                                s,
                                ab.1,
                                end,
                                EnumSchemaV { name: acc.name, values: acc.values.push(v) },
                            ),
                        },
                    }
                } else {
                    match spec_skip(s, j, end, wire) {
                        Option::None => Option::None,
                        Option::Some(j2) => spec_dec_enum(s, j2, end, acc),
                    }
                }
            },
        }
    }
}

#[via_fn]
proof fn dec_enum_decreases(s: Seq<u8>, i: int, end: int, acc: EnumSchemaV) {
    lemma_varint_bounds(s, i, end);
    if 0 <= i < end {
        match spec_varint64(s, i, end) {
            Option::Some(kj) => {
                lemma_varint_bounds(s, kj.1, end);
                lemma_skip_bounds(s, kj.1, end, kj.0 % 8);
            },
            Option::None => {},
        }
    }
}

pub fn decode_enum_desc(s: &Vec<u8>, start: usize, end: usize) -> (r: Option<EnumSchema>)
    requires
        start <= end <= s@.len(),
    ensures
        match r {
            Option::Some(e) => spec_dec_enum(s@, start as int, end as int, empty_enum_schema())
                == Option::Some(e@),
            Option::None => spec_dec_enum(s@, start as int, end as int, empty_enum_schema())
                matches Option::None,
        },
{
    let mut name: Vec<u8> = Vec::new();
    let mut values: Vec<EnumValueSchema> = Vec::new();
    let mut i: usize = start;
    proof {
        assert((EnumSchema { name: name, values: values })@.name =~= Seq::<u8>::empty());
        assert((EnumSchema { name: name, values: values })@.values =~= Seq::<
            EnumValueSchemaV,
        >::empty());
    }
    while i < end
        invariant
            start <= i <= end <= s@.len(),
            spec_dec_enum(s@, start as int, end as int, empty_enum_schema()) == spec_dec_enum(
                s@,
                i as int,
                end as int,
                (EnumSchema { name: name, values: values })@,
            ),
        decreases end - i,
    {
        match decode_varint(s, i, end) {
            Option::None => {
                return Option::None;
            },
            Option::Some((key, j)) => {
                let fno = key / 8;
                let wire = key % 8;
                if fno == 1 && wire == 2 {
                    match read_len_range(s, j, end) {
                        Option::None => {
                            return Option::None;
                        },
                        Option::Some((a, b)) => {
                            name = crate::text::slice_range(s, a, b);
                            i = b;
                        },
                    }
                } else if fno == 2 && wire == 2 {
                    match read_len_range(s, j, end) {
                        Option::None => {
                            return Option::None;
                        },
                        Option::Some((a, b)) => {
                            match decode_enum_value(s, a, b) {
                                Option::None => {
                                    return Option::None;
                                },
                                Option::Some(v) => {
                                    let ghost old_vals = (EnumSchema {
                                        name: name,
                                        values: values,
                                    })@.values;
                                    let ghost vv = v@;
                                    values.push(v);
                                    proof {
                                        assert((EnumSchema { name: name, values: values })@.values
                                            =~= old_vals.push(vv));
                                    }
                                    i = b;
                                },
                            }
                        },
                    }
                } else {
                    match skip_field(s, j, end, wire) {
                        Option::None => {
                            return Option::None;
                        },
                        Option::Some(j2) => {
                            i = j2;
                        },
                    }
                }
            },
        }
    }
    Option::Some(EnumSchema { name: name, values: values })
}

pub open spec fn empty_message_schema() -> MessageSchemaV {
    MessageSchemaV { name: Seq::empty(), fields: Seq::empty() }
}

/// One DescriptorProto: name (1) and fields (2, repeated); nested
/// declarations are skipped, so nested types are simply absent from the
/// index and their bindings degrade gracefully.
pub open spec fn spec_dec_message(s: Seq<u8>, i: int, end: int, acc: MessageSchemaV) -> Option<
    MessageSchemaV,
>
    decreases end - i,
    via dec_message_decreases
{
    if i >= end {
        if i == end {
            Option::Some(acc)
        } else {
            Option::None
        }
    } else {
        match spec_varint64(s, i, end) {
            Option::None => Option::None,
            Option::Some(kj) => {
                let fno = kj.0 / 8;
                let wire = kj.0 % 8;
                let j = kj.1;
                if fno == 1 && wire == 2 {
                    match spec_len_range(s, j, end) {
                        Option::None => Option::None,
                        Option::Some(ab) => spec_dec_message(
                            s,
                            ab.1,
                            end,
                            MessageSchemaV { name: s.subrange(ab.0, ab.1), fields: acc.fields },
                        ),
                    }
                } else if fno == 2 && wire == 2 {
                    match spec_len_range(s, j, end) {
                        Option::None => Option::None,
                        Option::Some(ab) => match spec_dec_field(s, ab.0, ab.1, empty_field()) {
                            Option::None => Option::None,
                            Option::Some(f) => spec_dec_message(
                                s,
                                ab.1,
                                end,
                                MessageSchemaV { name: acc.name, fields: acc.fields.push(f) },
                            ),
                        },
                    }
                } else {
                    match spec_skip(s, j, end, wire) {
                        Option::None => Option::None,
                        Option::Some(j2) => spec_dec_message(s, j2, end, acc),
                    }
                }
            },
        }
    }
}

#[via_fn]
proof fn dec_message_decreases(s: Seq<u8>, i: int, end: int, acc: MessageSchemaV) {
    lemma_varint_bounds(s, i, end);
    if 0 <= i < end {
        match spec_varint64(s, i, end) {
            Option::Some(kj) => {
                lemma_varint_bounds(s, kj.1, end);
                lemma_skip_bounds(s, kj.1, end, kj.0 % 8);
            },
            Option::None => {},
        }
    }
}

pub fn decode_message_desc(s: &Vec<u8>, start: usize, end: usize) -> (r: Option<MessageSchema>)
    requires
        start <= end <= s@.len(),
    ensures
        match r {
            Option::Some(m) => spec_dec_message(s@, start as int, end as int, empty_message_schema())
                == Option::Some(m@),
            Option::None => spec_dec_message(
                s@,
                start as int,
                end as int,
                empty_message_schema(),
            ) matches Option::None,
        },
{
    let mut name: Vec<u8> = Vec::new();
    let mut fields: Vec<FieldSchema> = Vec::new();
    let mut i: usize = start;
    proof {
        assert((MessageSchema { name: name, fields: fields })@.name =~= Seq::<u8>::empty());
        assert((MessageSchema { name: name, fields: fields })@.fields =~= Seq::<
            FieldSchemaV,
        >::empty());
    }
    while i < end
        invariant
            start <= i <= end <= s@.len(),
            spec_dec_message(s@, start as int, end as int, empty_message_schema())
                == spec_dec_message(
                s@,
                i as int,
                end as int,
                (MessageSchema { name: name, fields: fields })@,
            ),
        decreases end - i,
    {
        match decode_varint(s, i, end) {
            Option::None => {
                return Option::None;
            },
            Option::Some((key, j)) => {
                let fno = key / 8;
                let wire = key % 8;
                if fno == 1 && wire == 2 {
                    match read_len_range(s, j, end) {
                        Option::None => {
                            return Option::None;
                        },
                        Option::Some((a, b)) => {
                            name = crate::text::slice_range(s, a, b);
                            i = b;
                        },
                    }
                } else if fno == 2 && wire == 2 {
                    match read_len_range(s, j, end) {
                        Option::None => {
                            return Option::None;
                        },
                        Option::Some((a, b)) => {
                            match decode_field_desc(s, a, b) {
                                Option::None => {
                                    return Option::None;
                                },
                                Option::Some(f) => {
                                    let ghost old_fields = (MessageSchema {
                                        name: name,
                                        fields: fields,
                                    })@.fields;
                                    let ghost fvv = f@;
                                    fields.push(f);
                                    proof {
                                        assert((MessageSchema { name: name, fields: fields })@
                                            .fields =~= old_fields.push(fvv));
                                    }
                                    i = b;
                                },
                            }
                        },
                    }
                } else {
                    match skip_field(s, j, end, wire) {
                        Option::None => {
                            return Option::None;
                        },
                        Option::Some(j2) => {
                            i = j2;
                        },
                    }
                }
            },
        }
    }
    Option::Some(MessageSchema { name: name, fields: fields })
}

pub open spec fn empty_schema_file() -> SchemaFileV {
    SchemaFileV {
        name: Seq::empty(),
        package: Seq::empty(),
        messages: Seq::empty(),
        enums: Seq::empty(),
    }
}

/// One FileDescriptorProto: name (1), package (2), message types (4,
/// repeated), enum types (5, repeated).
pub open spec fn spec_dec_file(s: Seq<u8>, i: int, end: int, acc: SchemaFileV) -> Option<SchemaFileV>
    decreases end - i,
    via dec_file_decreases
{
    if i >= end {
        if i == end {
            Option::Some(acc)
        } else {
            Option::None
        }
    } else {
        match spec_varint64(s, i, end) {
            Option::None => Option::None,
            Option::Some(kj) => {
                let fno = kj.0 / 8;
                let wire = kj.0 % 8;
                let j = kj.1;
                if fno == 1 && wire == 2 {
                    match spec_len_range(s, j, end) {
                        Option::None => Option::None,
                        Option::Some(ab) => spec_dec_file(
                            s,
                            ab.1,
                            end,
                            SchemaFileV {
                                name: s.subrange(ab.0, ab.1),
                                package: acc.package,
                                messages: acc.messages,
                                enums: acc.enums,
                            },
                        ),
                    }
                } else if fno == 2 && wire == 2 {
                    match spec_len_range(s, j, end) {
                        Option::None => Option::None,
                        Option::Some(ab) => spec_dec_file(
                            s,
                            ab.1,
                            end,
                            SchemaFileV {
                                name: acc.name,
                                package: s.subrange(ab.0, ab.1),
                                messages: acc.messages,
                                enums: acc.enums,
                            },
                        ),
                    }
                } else if fno == 4 && wire == 2 {
                    match spec_len_range(s, j, end) {
                        Option::None => Option::None,
                        Option::Some(ab) => match spec_dec_message(
                            s,
                            ab.0,
                            ab.1,
                            empty_message_schema(),
                        ) {
                            Option::None => Option::None,
                            Option::Some(m) => spec_dec_file(
                                s,
                                ab.1,
                                end,
                                SchemaFileV {
                                    name: acc.name,
                                    package: acc.package,
                                    messages: acc.messages.push(m),
                                    enums: acc.enums,
                                },
                            ),
                        },
                    }
                } else if fno == 5 && wire == 2 {
                    match spec_len_range(s, j, end) {
                        Option::None => Option::None,
                        Option::Some(ab) => match spec_dec_enum(s, ab.0, ab.1, empty_enum_schema()) {
                            Option::None => Option::None,
                            Option::Some(e) => spec_dec_file(
                                s,
                                ab.1,
                                end,
                                SchemaFileV {
                                    name: acc.name,
                                    package: acc.package,
                                    messages: acc.messages,
                                    enums: acc.enums.push(e),
                                },
                            ),
                        },
                    }
                } else {
                    match spec_skip(s, j, end, wire) {
                        Option::None => Option::None,
                        Option::Some(j2) => spec_dec_file(s, j2, end, acc),
                    }
                }
            },
        }
    }
}

#[via_fn]
proof fn dec_file_decreases(s: Seq<u8>, i: int, end: int, acc: SchemaFileV) {
    lemma_varint_bounds(s, i, end);
    if 0 <= i < end {
        match spec_varint64(s, i, end) {
            Option::Some(kj) => {
                lemma_varint_bounds(s, kj.1, end);
                lemma_skip_bounds(s, kj.1, end, kj.0 % 8);
            },
            Option::None => {},
        }
    }
}

pub fn decode_file_desc(s: &Vec<u8>, start: usize, end: usize) -> (r: Option<SchemaFile>)
    requires
        start <= end <= s@.len(),
    ensures
        match r {
            Option::Some(f) => spec_dec_file(s@, start as int, end as int, empty_schema_file())
                == Option::Some(f@),
            Option::None => spec_dec_file(s@, start as int, end as int, empty_schema_file())
                matches Option::None,
        },
{
    let mut name: Vec<u8> = Vec::new();
    let mut package: Vec<u8> = Vec::new();
    let mut messages: Vec<MessageSchema> = Vec::new();
    let mut enums: Vec<EnumSchema> = Vec::new();
    let mut i: usize = start;
    proof {
        assert((SchemaFile { name: name, package: package, messages: messages, enums: enums })@
            .name =~= Seq::<u8>::empty());
        assert((SchemaFile { name: name, package: package, messages: messages, enums: enums })@
            .package =~= Seq::<u8>::empty());
        assert((SchemaFile { name: name, package: package, messages: messages, enums: enums })@
            .messages =~= Seq::<MessageSchemaV>::empty());
        assert((SchemaFile { name: name, package: package, messages: messages, enums: enums })@
            .enums =~= Seq::<EnumSchemaV>::empty());
    }
    while i < end
        invariant
            start <= i <= end <= s@.len(),
            spec_dec_file(s@, start as int, end as int, empty_schema_file()) == spec_dec_file(
                s@,
                i as int,
                end as int,
                (SchemaFile { name: name, package: package, messages: messages, enums: enums })@,
            ),
        decreases end - i,
    {
        match decode_varint(s, i, end) {
            Option::None => {
                return Option::None;
            },
            Option::Some((key, j)) => {
                let fno = key / 8;
                let wire = key % 8;
                if fno == 1 && wire == 2 {
                    match read_len_range(s, j, end) {
                        Option::None => {
                            return Option::None;
                        },
                        Option::Some((a, b)) => {
                            name = crate::text::slice_range(s, a, b);
                            i = b;
                        },
                    }
                } else if fno == 2 && wire == 2 {
                    match read_len_range(s, j, end) {
                        Option::None => {
                            return Option::None;
                        },
                        Option::Some((a, b)) => {
                            package = crate::text::slice_range(s, a, b);
                            i = b;
                        },
                    }
                } else if fno == 4 && wire == 2 {
                    match read_len_range(s, j, end) {
                        Option::None => {
                            return Option::None;
                        },
                        Option::Some((a, b)) => {
                            match decode_message_desc(s, a, b) {
                                Option::None => {
                                    return Option::None;
                                },
                                Option::Some(m) => {
                                    let ghost old_msgs = (SchemaFile {
                                        name: name,
                                        package: package,
                                        messages: messages,
                                        enums: enums,
                                    })@.messages;
                                    let ghost mv = m@;
                                    messages.push(m);
                                    proof {
                                        assert((SchemaFile {
                                            name: name,
                                            package: package,
                                            messages: messages,
                                            enums: enums,
                                        })@.messages =~= old_msgs.push(mv));
                                    }
                                    i = b;
                                },
                            }
                        },
                    }
                } else if fno == 5 && wire == 2 {
                    match read_len_range(s, j, end) {
                        Option::None => {
                            return Option::None;
                        },
                        Option::Some((a, b)) => {
                            match decode_enum_desc(s, a, b) {
                                Option::None => {
                                    return Option::None;
                                },
                                Option::Some(e) => {
                                    let ghost old_enums = (SchemaFile {
                                        name: name,
                                        package: package,
                                        messages: messages,
                                        enums: enums,
                                    })@.enums;
                                    let ghost evv = e@;
                                    enums.push(e);
                                    proof {
                                        assert((SchemaFile {
                                            name: name,
                                            package: package,
                                            messages: messages,
                                            enums: enums,
                                        })@.enums =~= old_enums.push(evv));
                                    }
                                    i = b;
                                },
                            }
                        },
                    }
                } else {
                    match skip_field(s, j, end, wire) {
                        Option::None => {
                            return Option::None;
                        },
                        Option::Some(j2) => {
                            i = j2;
                        },
                    }
                }
            },
        }
    }
    Option::Some(SchemaFile { name: name, package: package, messages: messages, enums: enums })
}

/// A whole FileDescriptorSet: file entries (1, repeated).
pub open spec fn spec_dec_set(s: Seq<u8>, i: int, end: int, acc: Seq<SchemaFileV>) -> Option<
    Seq<SchemaFileV>,
>
    decreases end - i,
    via dec_set_decreases
{
    if i >= end {
        if i == end {
            Option::Some(acc)
        } else {
            Option::None
        }
    } else {
        match spec_varint64(s, i, end) {
            Option::None => Option::None,
            Option::Some(kj) => {
                let fno = kj.0 / 8;
                let wire = kj.0 % 8;
                let j = kj.1;
                if fno == 1 && wire == 2 {
                    match spec_len_range(s, j, end) {
                        Option::None => Option::None,
                        Option::Some(ab) => match spec_dec_file(s, ab.0, ab.1, empty_schema_file()) {
                            Option::None => Option::None,
                            Option::Some(f) => spec_dec_set(s, ab.1, end, acc.push(f)),
                        },
                    }
                } else {
                    match spec_skip(s, j, end, wire) {
                        Option::None => Option::None,
                        Option::Some(j2) => spec_dec_set(s, j2, end, acc),
                    }
                }
            },
        }
    }
}

#[via_fn]
proof fn dec_set_decreases(s: Seq<u8>, i: int, end: int, acc: Seq<SchemaFileV>) {
    lemma_varint_bounds(s, i, end);
    if 0 <= i < end {
        match spec_varint64(s, i, end) {
            Option::Some(kj) => {
                lemma_varint_bounds(s, kj.1, end);
                lemma_skip_bounds(s, kj.1, end, kj.0 % 8);
            },
            Option::None => {},
        }
    }
}

/// The decoded schema set of a descriptor payload, or `None` when the
/// payload is malformed.
pub open spec fn spec_decode_set(t: Seq<u8>) -> Option<SchemaSetV> {
    match spec_dec_set(t, 0, t.len() as int, Seq::empty()) {
        Option::None => Option::None,
        Option::Some(files) => Option::Some(SchemaSetV { files: files }),
    }
}

/// Decodes a binary FileDescriptorSet. Failure is the fatal decode error:
/// without schema metadata no attribute injection can be checked.
pub fn decode_descriptor_set(t: &Vec<u8>) -> (r: Result<SchemaSet, PipelineError>)
    ensures
        match r {
            Result::Ok(s) => spec_decode_set(t@) == Option::Some(s@),
            Result::Err(e) => e == PipelineError::Decode && spec_decode_set(t@)
                matches Option::None,
        },
{
    let mut files: Vec<SchemaFile> = Vec::new();
    let mut i: usize = 0;
    let end = t.len();
    proof {
        assert((SchemaSet { files: files })@.files =~= Seq::<SchemaFileV>::empty());
    }
    while i < end
        invariant
            0 <= i <= end == t@.len(),
            spec_dec_set(t@, 0, end as int, Seq::empty()) == spec_dec_set(
                t@,
                i as int,
                end as int,
                (SchemaSet { files: files })@.files,
            ),
        decreases end - i,
    {
        match decode_varint(t, i, end) {
            Option::None => {
                return Result::Err(PipelineError::Decode);
            },
            Option::Some((key, j)) => {
                let fno = key / 8;
                let wire = key % 8;
                if fno == 1 && wire == 2 {
                    match read_len_range(t, j, end) {
                        Option::None => {
                            return Result::Err(PipelineError::Decode);
                        },
                        Option::Some((a, b)) => {
                            match decode_file_desc(t, a, b) {
                                Option::None => {
                                    return Result::Err(PipelineError::Decode);
                                },
                                Option::Some(f) => {
                                    let ghost old_files = (SchemaSet { files: files })@.files;
                                    let ghost fv = f@;
                                    files.push(f);
                                    proof {
                                        assert((SchemaSet { files: files })@.files =~= old_files
                                            .push(fv));
                                    }
                                    i = b;
                                },
                            }
                        },
                    }
                } else {
                    match skip_field(t, j, end, wire) {
                        Option::None => {
                            return Result::Err(PipelineError::Decode);
                        },
                        Option::Some(j2) => {
                            i = j2;
                        },
                    }
                }
            },
        }
    }
    Result::Ok(SchemaSet { files: files })
}

/// Merges a second decoded set after the first, preserving merge order, as
/// the run does over multiple descriptor fragments.
pub fn merge_sets(a: SchemaSet, b: SchemaSet) -> (r: SchemaSet)
    ensures
        r@.files == a@.files + b@.files,
{
    let ghost av = a@.files;
    let ghost bv = b@.files;
    let SchemaSet { files: mut files } = a;
    let SchemaSet { files: other } = b;
    let mut src = other;
    let total: usize = src.len();
    let mut taken: usize = 0;
    while src.len() > 0
        invariant
            total == bv.len(),
            taken + src@.len() == total,
            forall|j: int| 0 <= j < src@.len() ==> (#[trigger] src@[j])@ == bv[taken + j],
            (SchemaSet { files: files })@.files =~= av + bv.subrange(0, taken as int),
        decreases src@.len(),
    {
        let ghost sv = src@;
        let f = src.remove(0);
        proof {
            assert(f@ == bv[taken as int]);
            assert(src@ =~= sv.subrange(1, sv.len() as int));
            assert((av + bv.subrange(0, taken as int)).push(f@) =~= av + bv.subrange(
                0,
                taken + 1,
            ));
        }
        files.push(f);
        taken += 1;
        proof {
            assert((SchemaSet { files: files })@.files =~= av + bv.subrange(0, taken as int));
        }
    }
    proof {
        assert(bv.subrange(0, bv.len() as int) =~= bv);
    }
    SchemaSet { files: files }
}

} // verus!
