//! Schema index: the queryable structure built from the binary descriptor
//! set.
//!
//! Types mirror the descriptor's structure as plain values: files with a
//! package name, message types with ordered fields (name, wire number, kind,
//! label, json name, one-of index), and enum types with named numeric
//! values. Lookup is by package and local type name; field lookup matches
//! names after case normalization, so underscore and camel-case variants of
//! the same name resolve to the same field.

use vstd::prelude::*;

use crate::text;

verus! {

/// One field of a message type. `kind` and `label` hold the descriptor's
/// numeric codes.
pub struct FieldSchema {
    pub name: Vec<u8>,
    pub number: u64,
    pub kind: u64,
    pub label: u64,
    pub json_name: Vec<u8>,
    pub oneof_index: Option<u64>,
}

pub struct FieldSchemaV {
    pub name: Seq<u8>,
    pub number: u64,
    pub kind: u64,
    pub label: u64,
    pub json_name: Seq<u8>,
    pub oneof_index: Option<u64>,
}

impl View for FieldSchema {
    type V = FieldSchemaV;

    open spec fn view(&self) -> FieldSchemaV {
        FieldSchemaV {
            name: self.name@,
            number: self.number,
            kind: self.kind,
            label: self.label,
            json_name: self.json_name@,
            oneof_index: self.oneof_index,
        }
    }
}

pub struct MessageSchema {
    pub name: Vec<u8>,
    pub fields: Vec<FieldSchema>,
}

pub struct MessageSchemaV {
    pub name: Seq<u8>,
    pub fields: Seq<FieldSchemaV>,
}

impl View for MessageSchema {
    type V = MessageSchemaV;

    open spec fn view(&self) -> MessageSchemaV {
        MessageSchemaV {
            name: self.name@,
            fields: Seq::new(self.fields@.len(), |i: int| self.fields@[i]@),
        }
    }
}

pub struct EnumValueSchema {
    pub name: Vec<u8>,
    pub number: u64,
}

pub struct EnumValueSchemaV {
    pub name: Seq<u8>,
    pub number: u64,
}

impl View for EnumValueSchema {
    type V = EnumValueSchemaV;

    open spec fn view(&self) -> EnumValueSchemaV {
        EnumValueSchemaV { name: self.name@, number: self.number }
    }
}

pub struct EnumSchema {
    pub name: Vec<u8>,
    pub values: Vec<EnumValueSchema>,
}

pub struct EnumSchemaV {
    pub name: Seq<u8>,
    pub values: Seq<EnumValueSchemaV>,
}

impl View for EnumSchema {
    type V = EnumSchemaV;

    open spec fn view(&self) -> EnumSchemaV {
        EnumSchemaV {
            name: self.name@,
            values: Seq::new(self.values@.len(), |i: int| self.values@[i]@),
        }
    }
}

pub struct SchemaFile {
    pub name: Vec<u8>,
    pub package: Vec<u8>,
    pub messages: Vec<MessageSchema>,
    pub enums: Vec<EnumSchema>,
}

pub struct SchemaFileV {
    pub name: Seq<u8>,
    pub package: Seq<u8>,
    pub messages: Seq<MessageSchemaV>,
    pub enums: Seq<EnumSchemaV>,
}

impl View for SchemaFile {
    type V = SchemaFileV;

    open spec fn view(&self) -> SchemaFileV {
        SchemaFileV {
            name: self.name@,
            package: self.package@,
            messages: Seq::new(self.messages@.len(), |i: int| self.messages@[i]@),
            enums: Seq::new(self.enums@.len(), |i: int| self.enums@[i]@),
        }
    }
}

/// The merged schema descriptor set: file entries in merge order.
pub struct SchemaSet {
    pub files: Vec<SchemaFile>,
}

pub struct SchemaSetV {
    pub files: Seq<SchemaFileV>,
}

impl View for SchemaSet {
    type V = SchemaSetV;

    open spec fn view(&self) -> SchemaSetV {
        SchemaSetV { files: Seq::new(self.files@.len(), |i: int| self.files@[i]@) }
    }
}

/// The 64-bit integer wire kinds: int64, uint64, fixed64, sfixed64, sint64.
pub open spec fn is_int64_kind(k: u64) -> bool {
    k == 3 || k == 4 || k == 6 || k == 16 || k == 18
}

/// Executable test for the 64-bit integer wire kinds.
pub fn int64_kind(k: u64) -> (b: bool)
    ensures
        b == is_int64_kind(k),
{
    k == 3 || k == 4 || k == 6 || k == 16 || k == 18
}

/// The descriptor code for enum-typed fields.
pub open spec fn enum_kind() -> u64 {
    14
}

pub open spec fn to_lower(c: u8) -> u8 {
    if 65 <= c <= 90 {
        (c + 32) as u8
    } else {
        c
    }
}

/// Case normalization: underscores removed and letters lowered, so
/// `foo_bar` and `fooBar` normalize alike.
pub open spec fn norm_name(s: Seq<u8>) -> Seq<u8>
    decreases s.len(),
{
    if s.len() == 0 {
        s
    } else if s[0] == 95 {
        norm_name(s.subrange(1, s.len() as int))
    } else {
        seq![to_lower(s[0])] + norm_name(s.subrange(1, s.len() as int))
    }
}

/// Normalizes a name for comparison.
pub fn normalize_name(v: &Vec<u8>) -> (res: Vec<u8>)
    ensures
        res@ == norm_name(v@),
{
    let mut out: Vec<u8> = Vec::new();
    let mut i: usize = 0;
    proof {
        assert(v@.subrange(0, v@.len() as int) =~= v@);
        assert(Seq::<u8>::empty() + norm_name(v@) =~= norm_name(v@));
    }
    while i < v.len()
        invariant
            0 <= i <= v@.len(),
            norm_name(v@) == out@ + norm_name(v@.subrange(i as int, v@.len() as int)),
        decreases v@.len() - i,
    {
        let ghost rest = v@.subrange(i as int, v@.len() as int);
        proof {
            assert(rest[0] == v@[i as int]);
            assert(rest.subrange(1, rest.len() as int) =~= v@.subrange(i + 1, v@.len() as int));
        }
        let c = v[i];
        if c != 95 {
            let lc: u8 = if 65 <= c && c <= 90 {
                c + 32
            } else {
                c
            };
            proof {
                assert(lc == to_lower(rest[0]));
                assert(out@.push(lc) + norm_name(v@.subrange(i + 1, v@.len() as int)) =~= out@ + (
                seq![lc] + norm_name(v@.subrange(i + 1, v@.len() as int))));
            }
            out.push(lc);
        }
        i += 1;
    }
    proof {
        assert(v@.subrange(i as int, v@.len() as int) =~= Seq::<u8>::empty());
        assert(out@ + Seq::<u8>::empty() =~= out@);
    }
    out
}

/// The first field whose normalized name equals the normalized target.
pub open spec fn spec_find_field(fields: Seq<FieldSchemaV>, target: Seq<u8>) -> Option<FieldSchemaV>
    decreases fields.len(),
{
    if fields.len() == 0 {
        Option::None
    } else if norm_name(fields[0].name) == norm_name(target) {
        Option::Some(fields[0])
    } else {
        spec_find_field(fields.subrange(1, fields.len() as int), target)
    }
}

/// The first message with the given name.
pub open spec fn spec_find_message(msgs: Seq<MessageSchemaV>, name: Seq<u8>) -> Option<
    MessageSchemaV,
>
    decreases msgs.len(),
{
    if msgs.len() == 0 {
        Option::None
    } else if msgs[0].name == name {
        Option::Some(msgs[0])
    } else {
        spec_find_message(msgs.subrange(1, msgs.len() as int), name)
    }
}

/// The first enum with the given name.
pub open spec fn spec_find_enum(es: Seq<EnumSchemaV>, name: Seq<u8>) -> Option<EnumSchemaV>
    decreases es.len(),
{
    if es.len() == 0 {
        Option::None
    } else if es[0].name == name {
        Option::Some(es[0])
    } else {
        spec_find_enum(es.subrange(1, es.len() as int), name)
    }
}

/// The first message with the given local name in a file of the given
/// package.
pub open spec fn spec_lookup_message(
    files: Seq<SchemaFileV>,
    package: Seq<u8>,
    name: Seq<u8>,
) -> Option<MessageSchemaV>
    decreases files.len(),
{
    if files.len() == 0 {
        Option::None
    } else {
        let here = if files[0].package == package {
            spec_find_message(files[0].messages, name)
        } else {
            Option::None
        };
        if here is Some {
            here
        } else {
            spec_lookup_message(files.subrange(1, files.len() as int), package, name)
        }
    }
}

/// The first enum with the given local name in a file of the given package.
pub open spec fn spec_lookup_enum(
    files: Seq<SchemaFileV>,
    package: Seq<u8>,
    name: Seq<u8>,
) -> Option<EnumSchemaV>
    decreases files.len(),
{
    if files.len() == 0 {
        Option::None
    } else {
        let here = if files[0].package == package {
            spec_find_enum(files[0].enums, name)
        } else {
            Option::None
        };
        if here is Some {
            here
        } else {
            spec_lookup_enum(files.subrange(1, files.len() as int), package, name)
        }
    }
}

/// The schema entry of a message field, by package, message name and field
/// name (the latter matched after case normalization).
pub open spec fn spec_lookup_field(
    s: SchemaSetV,
    package: Seq<u8>,
    msg_name: Seq<u8>,
    field_name: Seq<u8>,
) -> Option<FieldSchemaV> {
    match spec_lookup_message(s.files, package, msg_name) {
        Option::None => Option::None,
        Option::Some(m) => spec_find_field(m.fields, field_name),
    }
}

/// Whether the schema defines the given enum with a value of the given
/// (normalized) name.
pub open spec fn spec_enum_has_value(
    s: SchemaSetV,
    package: Seq<u8>,
    enum_name: Seq<u8>,
    value_name: Seq<u8>,
) -> bool {
    spec_lookup_enum(s.files, package, enum_name) is Some && exists|i: int|
        0 <= i < spec_lookup_enum(s.files, package, enum_name)->Some_0.values.len() && norm_name(
            #[trigger] spec_lookup_enum(s.files, package, enum_name)->Some_0.values[i].name,
        ) == norm_name(value_name)
}

/// Finds a field's schema entry, returning its wire-kind code.
fn find_field_kind(fields: &Vec<FieldSchema>, i: usize, target: &Vec<u8>) -> (r: Option<u64>)
    requires
        i <= fields@.len(),
    ensures
        match r {
            Option::Some(k) => {
                let fv = Seq::new(fields@.len(), |j: int| fields@[j]@).subrange(
                    i as int,
                    fields@.len() as int,
                );
                spec_find_field(fv, target@) matches Option::Some(fs) && fs.kind == k
            },
            Option::None => spec_find_field(
                Seq::new(fields@.len(), |j: int| fields@[j]@).subrange(
                    i as int,
                    fields@.len() as int,
                ),
                target@,
            ) matches Option::None,
        },
    decreases fields@.len() - i,
{
    let ghost fv = Seq::new(fields@.len(), |j: int| fields@[j]@).subrange(
        i as int,
        fields@.len() as int,
    );
    if i == fields.len() {
        proof {
            assert(fv.len() == 0);
        }
        return Option::None;
    }
    proof {
        assert(fv[0] == fields@[i as int]@);
        assert(fv.subrange(1, fv.len() as int) =~= Seq::new(fields@.len(), |j: int| fields@[j]@)
            .subrange(i + 1, fields@.len() as int));
    }
    let fname = normalize_name(&fields[i].name);
    let tname = normalize_name(target);
    if text::eq_bytes(&fname, &tname) {
        Option::Some(fields[i].kind)
    } else {
        find_field_kind(fields, i + 1, target)
    }
}

/// Finds a message by name.
fn find_message_index(msgs: &Vec<MessageSchema>, i: usize, name: &Vec<u8>) -> (r: Option<usize>)
    requires
        i <= msgs@.len(),
    ensures
        match r {
            Option::Some(k) => i <= k < msgs@.len() && spec_find_message(
                Seq::new(msgs@.len(), |j: int| msgs@[j]@).subrange(i as int, msgs@.len() as int),
                name@,
            ) == Option::Some(msgs@[k as int]@),
            Option::None => spec_find_message(
                Seq::new(msgs@.len(), |j: int| msgs@[j]@).subrange(i as int, msgs@.len() as int),
                name@,
            ) matches Option::None,
        },
    decreases msgs@.len() - i,
{
    let ghost mv = Seq::new(msgs@.len(), |j: int| msgs@[j]@).subrange(i as int, msgs@.len() as int);
    if i == msgs.len() {
        proof {
            assert(mv.len() == 0);
        }
        return Option::None;
    }
    proof {
        assert(mv[0] == msgs@[i as int]@);
        assert(mv.subrange(1, mv.len() as int) =~= Seq::new(msgs@.len(), |j: int| msgs@[j]@)
            .subrange(i + 1, msgs@.len() as int));
    }
    if text::eq_bytes(&msgs[i].name, name) {
        Option::Some(i)
    } else {
        find_message_index(msgs, i + 1, name)
    }
}

/// Finds an enum by name.
fn find_enum_index(es: &Vec<EnumSchema>, i: usize, name: &Vec<u8>) -> (r: Option<usize>)
    requires
        i <= es@.len(),
    ensures
        match r {
            Option::Some(k) => i <= k < es@.len() && spec_find_enum(
                Seq::new(es@.len(), |j: int| es@[j]@).subrange(i as int, es@.len() as int),
                name@,
            ) == Option::Some(es@[k as int]@),
            Option::None => spec_find_enum(
                Seq::new(es@.len(), |j: int| es@[j]@).subrange(i as int, es@.len() as int),
                name@,
            ) matches Option::None,
        },
    decreases es@.len() - i,
{
    let ghost ev = Seq::new(es@.len(), |j: int| es@[j]@).subrange(i as int, es@.len() as int);
    if i == es.len() {
        proof {
            assert(ev.len() == 0);
        }
        return Option::None;
    }
    proof {
        assert(ev[0] == es@[i as int]@);
        assert(ev.subrange(1, ev.len() as int) =~= Seq::new(es@.len(), |j: int| es@[j]@).subrange(
            i + 1,
            es@.len() as int,
        ));
    }
    if text::eq_bytes(&es[i].name, name) {
        Option::Some(i)
    } else {
        find_enum_index(es, i + 1, name)
    }
}

/// Looks up the wire-kind code of a message field, by package, message name
/// and field name (matched after case normalization).
pub fn lookup_field_kind(
    s: &SchemaSet,
    i: usize,
    package: &Vec<u8>,
    msg_name: &Vec<u8>,
    field_name: &Vec<u8>,
) -> (r: Option<u64>)
    requires
        i <= s.files@.len(),
    ensures
        match r {
            Option::Some(k) => spec_lookup_field_from(s@, i as int, package@, msg_name@, field_name@)
                matches Option::Some(fs) && fs.kind == k,
            Option::None => spec_lookup_field_from(
                s@,
                i as int,
                package@,
                msg_name@,
                field_name@,
            ) matches Option::None,
        },
    decreases s.files@.len() - i,
{
    let ghost files_v = s@.files.subrange(i as int, s@.files.len() as int);
    if i == s.files.len() {
        proof {
            assert(files_v.len() == 0);
        }
        return Option::None;
    }
    proof {
        assert(files_v[0] == s.files@[i as int]@);
        assert(files_v.subrange(1, files_v.len() as int) =~= s@.files.subrange(
            i + 1,
            s@.files.len() as int,
        ));
    }
    let f = &s.files[i];
    if text::eq_bytes(&f.package, package) {
        match find_message_index(&f.messages, 0, msg_name) {
            Option::Some(mi) => {
                proof {
                    assert(Seq::new(f.messages@.len(), |j: int| f.messages@[j]@).subrange(
                        0,
                        f.messages@.len() as int,
                    ) =~= files_v[0].messages);
                }
                return find_field_kind_of(&f.messages[mi], field_name);
            },
            Option::None => {
                proof {
                    assert(Seq::new(f.messages@.len(), |j: int| f.messages@[j]@).subrange(
                        0,
                        f.messages@.len() as int,
                    ) =~= files_v[0].messages);
                }
                return lookup_field_kind(s, i + 1, package, msg_name, field_name);
            },
        }
    }
    lookup_field_kind(s, i + 1, package, msg_name, field_name)
}

/// `spec_lookup_field` restricted to the file suffix starting at `i`.
pub open spec fn spec_lookup_field_from(
    s: SchemaSetV,
    i: int,
    package: Seq<u8>,
    msg_name: Seq<u8>,
    field_name: Seq<u8>,
) -> Option<FieldSchemaV> {
    match spec_lookup_message(
        s.files.subrange(i, s.files.len() as int),
        package,
        msg_name,
    ) {
        Option::None => Option::None,
        Option::Some(m) => spec_find_field(m.fields, field_name),
    }
}

/// Looks up the wire-kind code of a message field in the whole set.
pub fn field_kind(
    s: &SchemaSet,
    package: &Vec<u8>,
    msg_name: &Vec<u8>,
    field_name: &Vec<u8>,
) -> (r: Option<u64>)
    ensures
        match r {
            Option::Some(k) => spec_lookup_field(s@, package@, msg_name@, field_name@)
                matches Option::Some(fs) && fs.kind == k,
            Option::None => spec_lookup_field(s@, package@, msg_name@, field_name@)
                matches Option::None,
        },
{
    proof {
        assert(s@.files.subrange(0, s@.files.len() as int) =~= s@.files);
    }
    lookup_field_kind(s, 0, package, msg_name, field_name)
}

/// Whether any value from index `i` on matches after normalization.
fn has_norm_value(values: &Vec<EnumValueSchema>, i: usize, target: &Vec<u8>) -> (b: bool)
    requires
        i <= values@.len(),
    ensures
        b == exists|j: int|
            i <= j < values@.len() && norm_name((#[trigger] values@[j])@.name) == norm_name(
                target@,
            ),
    decreases values@.len() - i,
{
    if i == values.len() {
        return false;
    }
    let vn = normalize_name(&values[i].name);
    let tn = normalize_name(target);
    if text::eq_bytes(&vn, &tn) {
        proof {
            assert(norm_name(values@[i as int]@.name) == norm_name(target@));
        }
        return true;
    }
    has_norm_value(values, i + 1, target)
}

/// Enum lookup by package and name, from file index `i`.
fn lookup_enum_from(s: &SchemaSet, i: usize, package: &Vec<u8>, enum_name: &Vec<u8>) -> (r: Option<
    (usize, usize),
>)
    requires
        i <= s.files@.len(),
    ensures
        match r {
            Option::Some(p) => p.0 < s.files@.len() && p.1 < s.files@[p.0 as int].enums@.len()
                && spec_lookup_enum(
                s@.files.subrange(i as int, s@.files.len() as int),
                package@,
                enum_name@,
            ) == Option::Some(s.files@[p.0 as int]@.enums[p.1 as int]),
            Option::None => spec_lookup_enum(
                s@.files.subrange(i as int, s@.files.len() as int),
                package@,
                enum_name@,
            ) matches Option::None,
        },
    decreases s.files@.len() - i,
{
    let ghost files_v = s@.files.subrange(i as int, s@.files.len() as int);
    if i == s.files.len() {
        proof {
            assert(files_v.len() == 0);
        }
        return Option::None;
    }
    proof {
        assert(files_v[0] == s.files@[i as int]@);
        assert(files_v.subrange(1, files_v.len() as int) =~= s@.files.subrange(
            i + 1,
            s@.files.len() as int,
        ));
    }
    let f = &s.files[i];
    if text::eq_bytes(&f.package, package) {
        match find_enum_index(&f.enums, 0, enum_name) {
            Option::Some(ei) => {
                proof {
                    assert(Seq::new(f.enums@.len(), |j: int| f.enums@[j]@).subrange(
                        0,
                        f.enums@.len() as int,
                    ) =~= files_v[0].enums);
                }
                return Option::Some((i, ei));
            },
            Option::None => {
                proof {
                    assert(Seq::new(f.enums@.len(), |j: int| f.enums@[j]@).subrange(
                        0,
                        f.enums@.len() as int,
                    ) =~= files_v[0].enums);
                }
                return lookup_enum_from(s, i + 1, package, enum_name);
            },
        }
    }
    lookup_enum_from(s, i + 1, package, enum_name)
}

/// Whether the schema defines the enum with a value of the given name
/// (matched after case normalization).
pub fn enum_value_defined(
    s: &SchemaSet,
    package: &Vec<u8>,
    enum_name: &Vec<u8>,
    value_name: &Vec<u8>,
) -> (b: bool)
    ensures
        b == spec_enum_has_value(s@, package@, enum_name@, value_name@),
{
    proof {
        assert(s@.files.subrange(0, s@.files.len() as int) =~= s@.files);
    }
    match lookup_enum_from(s, 0, package, enum_name) {
        Option::None => false,
        Option::Some((fi, ei)) => {
            let e = &s.files[fi].enums[ei];
            proof {
                assert(e@ == s.files@[fi as int]@.enums[ei as int]);
            }
            let r = has_norm_value(&e.values, 0, value_name);
            proof {
                let ev = s.files@[fi as int]@.enums[ei as int];
                assert(forall|j: int|
                    0 <= j < e.values@.len() ==> (#[trigger] e.values@[j])@ == ev.values[j]);
                assert(spec_lookup_enum(s@.files, package@, enum_name@) == Option::Some(ev));
                if r {
                    let j = choose|j: int|
                        0 <= j < e.values@.len() && norm_name(
                            (#[trigger] e.values@[j])@.name,
                        ) == norm_name(value_name@);
                    assert(e.values@[j]@ == ev.values[j]);
                    assert(0 <= j < ev.values.len());
                    assert(norm_name(ev.values[j].name) == norm_name(value_name@));
                    assert(norm_name(
                        spec_lookup_enum(s@.files, package@, enum_name@)->Some_0.values[j].name,
                    ) == norm_name(value_name@));
                } else {
                    if spec_enum_has_value(s@, package@, enum_name@, value_name@) {
                        let j = choose|j: int|
                            0 <= j < spec_lookup_enum(
                                s@.files,
                                package@,
                                enum_name@,
                            )->Some_0.values.len() && norm_name(
                                #[trigger] spec_lookup_enum(
                                    s@.files,
                                    package@,
                                    enum_name@,
                                )->Some_0.values[j].name,
                            ) == norm_name(value_name@);
                        assert(norm_name(ev.values[j].name) == norm_name(value_name@));
                        assert(norm_name(e.values@[j]@.name) == norm_name(value_name@));
                    }
                }
                assert(r == spec_enum_has_value(s@, package@, enum_name@, value_name@));
            }
            r
        },
    }
}

/// Field-kind lookup within one message.
fn find_field_kind_of(m: &MessageSchema, field_name: &Vec<u8>) -> (r: Option<u64>)
    ensures
        match r {
            Option::Some(k) => spec_find_field(m@.fields, field_name@) matches Option::Some(fs)
                && fs.kind == k,
            Option::None => spec_find_field(m@.fields, field_name@) matches Option::None,
        },
{
    proof {
        assert(Seq::new(m.fields@.len(), |j: int| m.fields@[j]@).subrange(
            0,
            m.fields@.len() as int,
        ) =~= m@.fields);
    }
    find_field_kind(&m.fields, 0, field_name)
}

} // verus!
