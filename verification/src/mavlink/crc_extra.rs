//! The `crc_extra` byte of a message: a digest of its name and of its fields in wire
//! order, mixed into the checksum of every frame of that message.

use vstd::prelude::*;
use vstd::string::StringSliceAdditionalSpecFns;

use crate::mavlink::crc;
use crate::mavlink::crc::{Crc16, CRC_INIT};
use crate::text::text_eq;

verus! {

/// One field of a message definition.
#[derive(Debug, Clone, Copy)]
pub struct CrcExtraField<'a> {
    pub name: &'a str,
    /// The type as the definition writes it, without the array suffix.
    pub wire_type: &'a str,
    /// 0 for a scalar, the number of elements for an array.
    pub array_length: u8,
    /// Extension fields take no part in `crc_extra`.
    pub is_extension: bool,
}

/// The size in bytes of one element of a MAVLink type.
pub open spec fn type_size_spec(t: Seq<char>) -> Option<nat> {
    if t == "char"@ || t == "int8_t"@ || t == "uint8_t"@ || t == "uint8_t_mavlink_version"@ {
        Some(1)
    } else if t == "int16_t"@ || t == "uint16_t"@ {
        Some(2)
    } else if t == "int32_t"@ || t == "uint32_t"@ || t == "float"@ {
        Some(4)
    } else if t == "int64_t"@ || t == "uint64_t"@ || t == "double"@ {
        Some(8)
    } else {
        None
    }
}

/// The size in bytes of one element of a MAVLink type; 0 for an unknown type.
pub fn type_size(wire_type: &str) -> (r: usize)
    ensures
        match type_size_spec(wire_type@) {
            Some(n) => r == n,
            None => r == 0,
        },
{
    if text_eq(wire_type, "char") || text_eq(wire_type, "int8_t") || text_eq(wire_type, "uint8_t")
        || text_eq(wire_type, "uint8_t_mavlink_version") {
        1
    } else if text_eq(wire_type, "int16_t") || text_eq(wire_type, "uint16_t") {
        2
    } else if text_eq(wire_type, "int32_t") || text_eq(wire_type, "uint32_t") || text_eq(
        wire_type,
        "float",
    ) {
        4
    } else if text_eq(wire_type, "int64_t") || text_eq(wire_type, "uint64_t") || text_eq(
        wire_type,
        "double",
    ) {
        8
    } else {
        0
    }
}

/// The type name that enters the digest.
pub open spec fn crc_type_bytes(t: &str) -> Seq<u8> {
    if t@ == "uint8_t_mavlink_version"@ {
        "uint8_t".spec_bytes()
    } else {
        t.spec_bytes()
    }
}

/// The type name that enters the digest: the version marker counts as a plain byte.
pub fn crc_type<'a>(wire_type: &'a str) -> (r: &'a str)
    ensures
        r.spec_bytes() == crc_type_bytes(wire_type),
{
    if text_eq(wire_type, "uint8_t_mavlink_version") {
        "uint8_t"
    } else {
        wire_type
    }
}

/// What one field adds to the digest: type, space, name, space and, for an array, its
/// length.
pub open spec fn field_bytes(f: CrcExtraField) -> Seq<u8> {
    crc_type_bytes(f.wire_type).push(32) + f.name.spec_bytes().push(32) + (if f.array_length > 0 {
        seq![f.array_length]
    } else {
        Seq::empty()
    })
}

/// Whether `f` belongs to the group of base fields of element size `size`; without a
/// size, to the base fields.
pub open spec fn in_group(f: CrcExtraField, size: Option<nat>) -> bool {
    !f.is_extension && (size is Some ==> type_size_spec(f.wire_type@) == size)
}

/// What the fields of one group add to the digest, in the order of their definition.
pub open spec fn group_bytes(fields: Seq<CrcExtraField>, size: Option<nat>) -> Seq<u8>
    decreases fields.len(),
{
    if fields.len() == 0 {
        Seq::empty()
    } else if in_group(fields.last(), size) {
        group_bytes(fields.drop_last(), size) + field_bytes(fields.last())
    } else {
        group_bytes(fields.drop_last(), size)
    }
}

/// The number of base fields.
pub open spec fn base_count(fields: Seq<CrcExtraField>) -> nat
    decreases fields.len(),
{
    if fields.len() == 0 {
        0
    } else {
        base_count(fields.drop_last()) + (if fields.last().is_extension {
            0nat
        } else {
            1nat
        })
    }
}

/// What the fields add to the digest in wire order: largest element first, fields of
/// equal element size in the order of their definition.
pub open spec fn wire_bytes(fields: Seq<CrcExtraField>) -> Seq<u8> {
    if base_count(fields) <= 1 {
        group_bytes(fields, None)
    } else {
        group_bytes(fields, Some(8)) + group_bytes(fields, Some(4)) + group_bytes(fields, Some(2))
            + group_bytes(fields, Some(1))
    }
}

/// The checksum folded into one byte.
pub open spec fn fold_crc(crc: u16) -> u8 {
    ((crc & 0xFF) ^ (crc >> 8)) as u8
}

/// The `crc_extra` byte of a message.
pub open spec fn crc_extra_spec(name: &str, fields: Seq<CrcExtraField>) -> u8 {
    fold_crc(crc::crc_over(CRC_INIT, name.spec_bytes().push(32) + wire_bytes(fields)))
}

/// Whether the fields can be put in wire order: with two base fields or more, every
/// base field has a known type.
pub open spec fn orderable(fields: Seq<CrcExtraField>) -> bool {
    base_count(fields) <= 1 || forall|i: int|
        0 <= i < fields.len() && !fields[i].is_extension ==> type_size_spec(
            (#[trigger] fields[i]).wire_type@,
        ) is Some
}

/// Add `text` and a space to the checksum.
fn update_word(crc: &mut Crc16, text: &str)
    ensures
        final(crc)@ == crc::crc_over(old(crc)@, text.spec_bytes().push(32)),
{
    crc.update_slice(text.as_bytes());
    crc.update(32);
    proof {
        assert(text.spec_bytes().push(32).drop_last() == text.spec_bytes());
    }
}

/// Add one field to the checksum.
fn update_field(crc: &mut Crc16, f: &CrcExtraField)
    ensures
        final(crc)@ == crc::crc_over(old(crc)@, field_bytes(*f)),
{
    let ghost c = crc@;
    update_word(crc, crc_type(f.wire_type));
    update_word(crc, f.name);
    let ghost t = crc_type_bytes(f.wire_type).push(32);
    let ghost n = f.name.spec_bytes().push(32);
    proof {
        crc::law_crc_streams(c, t, n);
    }
    if f.array_length > 0 {
        crc.update(f.array_length);
        assert((t + n + seq![f.array_length]).drop_last() == t + n);
    } else {
        assert(t + n + Seq::empty() == t + n);
    }
}

/// Add the fields of element size `size`, or all base fields where `size` is 0.
fn update_group(crc: &mut Crc16, fields: &[CrcExtraField], size: usize)
    ensures
        final(crc)@ == crc::crc_over(
            old(crc)@,
            group_bytes(
                fields@,
                if size == 0 {
                    None
                } else {
                    Some(size as nat)
                },
            ),
        ),
{
    let ghost sel: Option<nat> = if size == 0 {
        None
    } else {
        Some(size as nat)
    };
    let mut i: usize = 0;
    while i < fields.len()
        invariant
            i <= fields@.len(),
            sel == (if size == 0 {
                None
            } else {
                Some(size as nat)
            }),
            crc@ == crc::crc_over(old(crc)@, group_bytes(fields@.take(i as int), sel)),
        decreases fields@.len() - i,
    {
        let f = &fields[i];
        proof {
            let t = fields@.take(i + 1);
            assert(t.drop_last() == fields@.take(i as int));
            assert(t.last() == *f);
            crc::law_crc_streams(old(crc)@, group_bytes(fields@.take(i as int), sel), field_bytes(*f));
        }
        if !f.is_extension && (size == 0 || type_size(f.wire_type) == size) {
            assert(in_group(*f, sel));
            update_field(crc, f);
        } else {
            assert(!in_group(*f, sel));
        }
        i = i + 1;
    }
    assert(fields@.take(fields@.len() as int) == fields@);
}

/// Count the base fields.
fn count_base(fields: &[CrcExtraField]) -> (r: usize)
    ensures
        r == base_count(fields@),
{
    let mut n: usize = 0;
    let mut i: usize = 0;
    while i < fields.len()
        invariant
            n <= i <= fields@.len(),
            n == base_count(fields@.take(i as int)),
        decreases fields@.len() - i,
    {
        proof {
            assert(fields@.take(i + 1).drop_last() == fields@.take(i as int));
        }
        if !fields[i].is_extension {
            n = n + 1;
        }
        i = i + 1;
    }
    assert(fields@.take(fields@.len() as int) == fields@);
    n
}

/// Compute the `crc_extra` byte of a message from its name and fields.
pub fn crc_extra_for_message(msg_name: &str, fields: &[CrcExtraField]) -> (r: u8)
    requires
        orderable(fields@),
    ensures
        r == crc_extra_spec(msg_name, fields@),
{
    let mut crc = Crc16::new();
    update_word(&mut crc, msg_name);
    let ghost head = msg_name.spec_bytes().push(32);
    if count_base(fields) <= 1 {
        update_group(&mut crc, fields, 0);
        proof {
            crc::law_crc_streams(CRC_INIT, head, group_bytes(fields@, None));
        }
    } else {
        update_group(&mut crc, fields, 8);
        update_group(&mut crc, fields, 4);
        update_group(&mut crc, fields, 2);
        update_group(&mut crc, fields, 1);
        proof {
            let g8 = group_bytes(fields@, Some(8));
            let g4 = group_bytes(fields@, Some(4));
            let g2 = group_bytes(fields@, Some(2));
            let g1 = group_bytes(fields@, Some(1));
            crc::law_crc_streams(CRC_INIT, head, g8);
            crc::law_crc_streams(CRC_INIT, head + g8, g4);
            crc::law_crc_streams(CRC_INIT, head + g8 + g4, g2);
            crc::law_crc_streams(CRC_INIT, head + g8 + g4 + g2, g1);
            assert(head + (g8 + g4 + g2 + g1) =~= head + g8 + g4 + g2 + g1);
        }
    }
    let c: u16 = crc.finalize();
    ((c & 0xFF) ^ (c >> 8)) as u8
}

/// The base fields of element size `size`, in the order of their definition.
pub open spec fn of_size(fields: Seq<CrcExtraField>, size: nat) -> Seq<CrcExtraField>
    decreases fields.len(),
{
    if fields.len() == 0 {
        Seq::empty()
    } else if in_group(fields.last(), Some(size)) {
        of_size(fields.drop_last(), size).push(fields.last())
    } else {
        of_size(fields.drop_last(), size)
    }
}

/// Whether two types are the same, the version marker being a plain byte.
pub open spec fn same_type(a: Seq<char>, b: Seq<char>) -> bool {
    let version = "uint8_t_mavlink_version"@;
    let byte = "uint8_t"@;
    a == b || (a == version && b == byte) || (a == byte && b == version)
}

/// Whether two lists hold the same fields in the same order.
pub open spec fn same_fields(a: Seq<CrcExtraField>, b: Seq<CrcExtraField>) -> bool {
    &&& a.len() == b.len()
    &&& forall|i: int|
        0 <= i < a.len() ==> {
            &&& (#[trigger] a[i]).name@ == b[i].name@
            &&& same_type(a[i].wire_type@, b[i].wire_type@)
            &&& a[i].array_length == b[i].array_length
        }
}

/// Whether every base field has a known type.
pub open spec fn types_known(fields: Seq<CrcExtraField>) -> bool {
    forall|i: int|
        0 <= i < fields.len() && !fields[i].is_extension ==> type_size_spec(
            (#[trigger] fields[i]).wire_type@,
        ) is Some
}

/// Only the base fields count, and of their order only that among fields of equal element
/// size: two definitions that have, for each size, the same base fields in the same order
/// have the same byte. Extension fields may be anywhere and of any number, the version
/// marker is a plain byte, and an array counts by its elements.
pub proof fn law_wire_order_decides(
    name: &str,
    fields: Seq<CrcExtraField>,
    others: Seq<CrcExtraField>,
)
    requires
        types_known(fields),
        types_known(others),
        same_fields(of_size(fields, 8), of_size(others, 8)),
        same_fields(of_size(fields, 4), of_size(others, 4)),
        same_fields(of_size(fields, 2), of_size(others, 2)),
        same_fields(of_size(fields, 1), of_size(others, 1)),
    ensures
        orderable(fields),
        orderable(others),
        crc_extra_spec(name, fields) == crc_extra_spec(name, others),
{
    lemma_wire_bytes(fields);
    lemma_wire_bytes(others);
    lemma_same_group(fields, others, 8);
    lemma_same_group(fields, others, 4);
    lemma_same_group(fields, others, 2);
    lemma_same_group(fields, others, 1);
}

/// The base fields of a definition.
pub open spec fn base_fields(fields: Seq<CrcExtraField>) -> Seq<CrcExtraField>
    decreases fields.len(),
{
    if fields.len() == 0 {
        Seq::empty()
    } else if fields.last().is_extension {
        base_fields(fields.drop_last())
    } else {
        base_fields(fields.drop_last()).push(fields.last())
    }
}

/// Extension fields do not change the byte, wherever they stand: it is the byte of the
/// base fields alone.
pub proof fn law_extension_fields_ignored(name: &str, fields: Seq<CrcExtraField>)
    ensures
        crc_extra_spec(name, fields) == crc_extra_spec(name, base_fields(fields)),
        orderable(fields) <==> orderable(base_fields(fields)),
{
    lemma_base_group(fields, None);
    lemma_base_group(fields, Some(8));
    lemma_base_group(fields, Some(4));
    lemma_base_group(fields, Some(2));
    lemma_base_group(fields, Some(1));
    lemma_base_types(fields);
}

/// A group of the base fields.
proof fn lemma_base_group(fields: Seq<CrcExtraField>, size: Option<nat>)
    ensures
        group_bytes(base_fields(fields), size) == group_bytes(fields, size),
        base_count(base_fields(fields)) == base_count(fields),
    decreases fields.len(),
{
    if fields.len() > 0 {
        lemma_base_group(fields.drop_last(), size);
        let base = base_fields(fields.drop_last());
        if !fields.last().is_extension {
            assert(base.push(fields.last()).drop_last() =~= base);
        }
    }
}

/// The types of the base fields.
proof fn lemma_base_types(fields: Seq<CrcExtraField>)
    ensures
        types_known(base_fields(fields)) <==> types_known(fields),
        forall|i: int|
            0 <= i < base_fields(fields).len() ==> !(#[trigger] base_fields(
                fields,
            )[i]).is_extension,
    decreases fields.len(),
{
    if fields.len() > 0 {
        let init = fields.drop_last();
        let last = fields.last();
        lemma_base_types(init);
        let base = base_fields(init);
        let all = base_fields(fields);
        assert(fields =~= init.push(last));
        if types_known(fields) {
            assert forall|i: int| 0 <= i < init.len() && !init[i].is_extension implies
                type_size_spec((#[trigger] init[i]).wire_type@) is Some by {
                assert(init[i] == fields[i]);
            }
            assert forall|i: int| 0 <= i < all.len() && !all[i].is_extension implies
                type_size_spec((#[trigger] all[i]).wire_type@) is Some by {
                if i < base.len() {
                    assert(all[i] == base[i]);
                } else {
                    assert(fields[fields.len() - 1] == last);
                }
            }
        }
        if types_known(all) {
            assert forall|i: int| 0 <= i < base.len() && !base[i].is_extension implies
                type_size_spec((#[trigger] base[i]).wire_type@) is Some by {
                assert(base[i] == all[i]);
            }
            assert forall|i: int| 0 <= i < fields.len() && !fields[i].is_extension implies
                type_size_spec((#[trigger] fields[i]).wire_type@) is Some by {
                if i < init.len() {
                    assert(fields[i] == init[i]);
                } else {
                    assert(all[all.len() - 1] == last);
                }
            }
        }
    }
}

/// With known types the bytes are those of the four groups, however many fields there are.
proof fn lemma_wire_bytes(fields: Seq<CrcExtraField>)
    requires
        types_known(fields),
    ensures
        wire_bytes(fields) == group_bytes(fields, Some(8)) + group_bytes(fields, Some(4))
            + group_bytes(fields, Some(2)) + group_bytes(fields, Some(1)),
{
    if base_count(fields) <= 1 {
        lemma_few_fields(fields);
    }
}

/// One base field, or none.
proof fn lemma_few_fields(fields: Seq<CrcExtraField>)
    requires
        types_known(fields),
        base_count(fields) <= 1,
    ensures
        group_bytes(fields, None) == group_bytes(fields, Some(8)) + group_bytes(fields, Some(4))
            + group_bytes(fields, Some(2)) + group_bytes(fields, Some(1)),
        base_count(fields) == 0 ==> forall|size: Option<nat>|
            (#[trigger] group_bytes(fields, size)).len() == 0,
    decreases fields.len(),
{
    if fields.len() > 0 {
        let init = fields.drop_last();
        let last = fields.last();
        assert forall|i: int| 0 <= i < init.len() && !init[i].is_extension implies type_size_spec(
            (#[trigger] init[i]).wire_type@,
        ) is Some by {
            assert(init[i] == fields[i]);
        }
        lemma_few_fields(init);
        if base_count(fields) == 0 {
            assert forall|size: Option<nat>| (#[trigger] group_bytes(fields, size)).len()
                == 0 by {
                assert(group_bytes(init, size).len() == 0);
            }
        }
        if !last.is_extension {
            assert(fields[fields.len() - 1] == last);
            assert(group_bytes(init, None).len() == 0);
            assert(group_bytes(init, Some(8)).len() == 0);
            assert(group_bytes(init, Some(4)).len() == 0);
            assert(group_bytes(init, Some(2)).len() == 0);
            assert(group_bytes(init, Some(1)).len() == 0);
        }
        assert(group_bytes(fields, None) =~= group_bytes(fields, Some(8)) + group_bytes(
            fields,
            Some(4),
        ) + group_bytes(fields, Some(2)) + group_bytes(fields, Some(1)));
    }
}

/// The bytes of fields in a row.
spec fn row_bytes(fields: Seq<CrcExtraField>) -> Seq<u8>
    decreases fields.len(),
{
    if fields.len() == 0 {
        Seq::empty()
    } else {
        row_bytes(fields.drop_last()) + field_bytes(fields.last())
    }
}

/// The bytes of a group are those of its fields in a row.
proof fn lemma_group_is_row(fields: Seq<CrcExtraField>, size: nat)
    ensures
        group_bytes(fields, Some(size)) == row_bytes(of_size(fields, size)),
    decreases fields.len(),
{
    if fields.len() > 0 {
        lemma_group_is_row(fields.drop_last(), size);
        let before = of_size(fields.drop_last(), size);
        if in_group(fields.last(), Some(size)) {
            assert(before.push(fields.last()).drop_last() =~= before);
        }
    }
}

/// The same fields in a row add the same bytes.
proof fn lemma_same_row(a: Seq<CrcExtraField>, b: Seq<CrcExtraField>)
    requires
        same_fields(a, b),
    ensures
        row_bytes(a) == row_bytes(b),
    decreases a.len(),
{
    if a.len() > 0 {
        let x = a.drop_last();
        let y = b.drop_last();
        assert forall|i: int| 0 <= i < x.len() implies {
            &&& (#[trigger] x[i]).name@ == y[i].name@
            &&& same_type(x[i].wire_type@, y[i].wire_type@)
            &&& x[i].array_length == y[i].array_length
        } by {
            assert(x[i] == a[i] && y[i] == b[i]);
        }
        lemma_same_row(x, y);
        assert(a[a.len() - 1] == a.last() && b[b.len() - 1] == b.last());
        assert(field_bytes(a.last()) == field_bytes(b.last()));
    }
}

/// The same fields of one size make the same group.
proof fn lemma_same_group(fields: Seq<CrcExtraField>, others: Seq<CrcExtraField>, size: nat)
    requires
        same_fields(of_size(fields, size), of_size(others, size)),
    ensures
        group_bytes(fields, Some(size)) == group_bytes(others, Some(size)),
{
    lemma_group_is_row(fields, size);
    lemma_group_is_row(others, size);
    lemma_same_row(of_size(fields, size), of_size(others, size));
}

/// The field of the larger elements comes first, in whatever order two fields are defined.
/// The byte is the fold of the checksum of the name of the message and a blank, followed by
/// the type, a blank, the name, a blank and, for an array, the length of each field.
pub proof fn law_larger_elements_come_first(
    name: &str,
    small: CrcExtraField,
    large: CrcExtraField,
)
    requires
        !small.is_extension,
        !large.is_extension,
        small.wire_type@ != "uint8_t_mavlink_version"@,
        large.wire_type@ != "uint8_t_mavlink_version"@,
        type_size_spec(small.wire_type@) is Some,
        type_size_spec(large.wire_type@) is Some,
        type_size_spec(small.wire_type@).unwrap() < type_size_spec(large.wire_type@).unwrap(),
    ensures
        ({
            let told = |f: CrcExtraField|
                f.wire_type.spec_bytes() + seq![0x20u8] + f.name.spec_bytes() + seq![0x20u8] + if f.array_length
                    > 0 {
                    seq![f.array_length]
                } else {
                    Seq::empty()
                };
            let c = crc::crc_over(
                0xFFFF,
                name.spec_bytes() + seq![0x20u8] + told(large) + told(small),
            );
            let byte = ((c & 0xFF) ^ (c >> 8)) as u8;
            &&& crc_extra_spec(name, seq![small, large]) == byte
            &&& crc_extra_spec(name, seq![large, small]) == byte
        }),
{
    lemma_pair_bytes(small, large, 8);
    lemma_pair_bytes(small, large, 4);
    lemma_pair_bytes(small, large, 2);
    lemma_pair_bytes(small, large, 1);
    lemma_pair_bytes(large, small, 8);
    lemma_pair_bytes(large, small, 4);
    lemma_pair_bytes(large, small, 2);
    lemma_pair_bytes(large, small, 1);
    let l = field_bytes(large);
    let s = field_bytes(small);
    assert(l =~= large.wire_type.spec_bytes() + seq![0x20u8] + large.name.spec_bytes() + seq![
        0x20u8,
    ] + if large.array_length > 0 {
        seq![large.array_length]
    } else {
        Seq::empty()
    });
    assert(s =~= small.wire_type.spec_bytes() + seq![0x20u8] + small.name.spec_bytes() + seq![
        0x20u8,
    ] + if small.array_length > 0 {
        seq![small.array_length]
    } else {
        Seq::empty()
    });
    assert(wire_bytes(seq![small, large]) =~= l + s);
    assert(wire_bytes(seq![large, small]) =~= l + s);
    assert(name.spec_bytes().push(32) + (l + s) =~= name.spec_bytes() + seq![0x20u8] + l + s);
}

/// A group of two fields.
proof fn lemma_pair_bytes(a: CrcExtraField, b: CrcExtraField, size: nat)
    requires
        !a.is_extension,
        !b.is_extension,
    ensures
        base_count(seq![a, b]) == 2,
        group_bytes(seq![a, b], Some(size)) == (if in_group(a, Some(size)) {
            field_bytes(a)
        } else {
            Seq::empty()
        }) + (if in_group(b, Some(size)) {
            field_bytes(b)
        } else {
            Seq::empty()
        }),
{
    let two = seq![a, b];
    let one = seq![a];
    let none = Seq::<CrcExtraField>::empty();
    assert(two.drop_last() =~= one && two.last() == b);
    assert(one.drop_last() =~= none && one.last() == a);
    assert(base_count(none) == 0);
    assert(base_count(one) == 1);
    assert(group_bytes(none, Some(size)) =~= Seq::<u8>::empty());
    assert(group_bytes(one, Some(size)) =~= if in_group(a, Some(size)) {
        field_bytes(a)
    } else {
        Seq::empty()
    });
    assert(group_bytes(two, Some(size)) =~= group_bytes(one, Some(size)) + if in_group(
        b,
        Some(size),
    ) {
        field_bytes(b)
    } else {
        Seq::empty()
    });
}

} // verus!
