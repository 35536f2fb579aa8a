//! Field types and message rows of a dialect.

use std::collections::HashMap;
use vstd::prelude::*;
use vstd::string::{StrSliceExecFns, StringExecFns};

use crate::text;
use crate::text::{decimal, find_char, parse_unsigned, prefix};

verus! {

broadcast use vstd::std_specs::hash::group_hash_axioms;

/// One field of a message definition, its array suffix split off the type.
#[derive(Debug, Clone)]
pub struct ParsedField {
    pub name: String,
    pub wire_type: String,
    pub array_length: u8,
    pub is_extension: bool,
}

/// One message definition, its fields in the order of the definition.
#[derive(Debug)]
pub struct ParsedMessage {
    pub id: u32,
    pub name: String,
    pub fields: Vec<ParsedField>,
}

/// A message row while dialects are being merged.
#[derive(Debug, Clone)]
pub struct MsgEntryGen {
    pub name: String,
    pub crc_extra: u8,
    pub min_payload_len: u16,
    pub target_sys_offset: Option<u16>,
    pub target_comp_offset: Option<u16>,
}

/// Why a field type could not be read. Each variant holds the type as written.
#[derive(Debug, PartialEq, Eq)]
pub enum ParseArrayError {
    Malformed(String),
    BadLength(String),
    ZeroLength(String),
}

/// The view of a `ParseArrayError`.
pub enum ParseArrayErrorView {
    Malformed(Seq<char>),
    BadLength(Seq<char>),
    ZeroLength(Seq<char>),
}

impl View for ParseArrayError {
    type V = ParseArrayErrorView;

    open spec fn view(&self) -> ParseArrayErrorView {
        match self {
            ParseArrayError::Malformed(t) => ParseArrayErrorView::Malformed(t@),
            ParseArrayError::BadLength(t) => ParseArrayErrorView::BadLength(t@),
            ParseArrayError::ZeroLength(t) => ParseArrayErrorView::ZeroLength(t@),
        }
    }
}

impl ParseArrayErrorView {
    /// The message for an operator.
    pub open spec fn message(self) -> Seq<char> {
        match self {
            ParseArrayErrorView::Malformed(t) => "malformed array type '"@ + t + "'"@,
            ParseArrayErrorView::BadLength(t) => "bad array length in '"@ + t + "'"@,
            ParseArrayErrorView::ZeroLength(t) => "zero-length array in '"@ + t + "'"@,
        }
    }
}

impl ParseArrayError {
    /// The message for an operator.
    pub fn message(&self) -> (r: String)
        ensures
            r@ == self@.message(),
    {
        match self {
            ParseArrayError::Malformed(t) => String::from_str("malformed array type '").concat(
                t.as_str(),
            ).concat("'"),
            ParseArrayError::BadLength(t) => String::from_str("bad array length in '").concat(
                t.as_str(),
            ).concat("'"),
            ParseArrayError::ZeroLength(t) => String::from_str("zero-length array in '").concat(
                t.as_str(),
            ).concat("'"),
        }
    }
}

/// Whether the brackets of `t` stand in the order that reading it needs: no closing
/// bracket before the opening one.
pub open spec fn brackets_in_order(t: Seq<char>) -> bool {
    match (t.index_of_first('['), t.index_of_first(']')) {
        (Some(lb), Some(rb)) => lb < rb,
        _ => true,
    }
}

/// The element type and the array length that `t` spells; length 0 for a scalar.
pub open spec fn array_suffix_spec(t: Seq<char>) -> Result<(Seq<char>, nat), ParseArrayErrorView> {
    match t.index_of_first('[') {
        None => Ok((t, 0)),
        Some(lb) => match t.index_of_first(']') {
            None => Err(ParseArrayErrorView::Malformed(t)),
            Some(rb) => match text::unsigned_spec(t.subrange(lb + 1, rb), u8::MAX as nat) {
                None => Err(ParseArrayErrorView::BadLength(t)),
                Some(n) => if n == 0 {
                    Err(ParseArrayErrorView::ZeroLength(t))
                } else {
                    Ok((t.take(lb), n))
                },
            },
        },
    }
}

/// Split a field type such as `uint8_t[16]` into its element type and array length.
pub fn parse_array_suffix(t: &str) -> (r: Result<(String, u8), ParseArrayError>)
    requires
        brackets_in_order(t@),
    ensures
        match r {
            Ok((elem, len)) => array_suffix_spec(t@) == Ok::<_, ParseArrayErrorView>(
                (elem@, len as nat),
            ),
            Err(e) => array_suffix_spec(t@) == Err::<(Seq<char>, nat), _>(e@),
        },
{
    let lb: usize = match find_char(t, '[') {
        Some(lb) => lb,
        None => {
            return Ok((t.to_owned(), 0));
        },
    };
    let rb: usize = match find_char(t, ']') {
        Some(rb) => rb,
        None => {
            return Err(ParseArrayError::Malformed(t.to_owned()));
        },
    };
    let elem = prefix(t, lb).to_owned();
    let len: u64 = match parse_unsigned(t.substring_char(lb + 1, rb), 255) {
        Some(n) => n,
        None => {
            return Err(ParseArrayError::BadLength(t.to_owned()));
        },
    };
    if len == 0 {
        return Err(ParseArrayError::ZeroLength(t.to_owned()));
    }
    Ok((elem, len as u8))
}

/// Why a message could not join the table.
#[derive(Debug, PartialEq, Eq)]
pub enum MergeError {
    CrcExtraConflict { id: u32, prev_name: String, new_name: String, prev_crc: u8, new_crc: u8 },
    NameConflict { id: u32, prev_name: String, new_name: String },
}

impl MergeError {
    /// The message for an operator.
    pub open spec fn message_spec(self) -> Seq<char> {
        match self {
            MergeError::CrcExtraConflict { id, prev_name, new_name, prev_crc, new_crc } => {
                "crc_extra conflict for msgid "@ + text::decimal_spec(id as nat) + " ("@ + prev_name@
                    + " vs "@ + new_name@ + "): "@ + text::decimal_spec(prev_crc as nat) + " != "@
                    + text::decimal_spec(new_crc as nat)
            },
            MergeError::NameConflict { id, prev_name, new_name } => {
                "msgid "@ + text::decimal_spec(id as nat) + " declared under two names: '"@ + prev_name@
                    + "' and '"@ + new_name@ + "'"@
            },
        }
    }

    /// The message for an operator.
    pub fn message(&self) -> (r: String)
        ensures
            r@ == self.message_spec(),
    {
        match self {
            MergeError::CrcExtraConflict { id, prev_name, new_name, prev_crc, new_crc } => {
                String::from_str("crc_extra conflict for msgid ").concat(
                    decimal(*id as u64).as_str(),
                ).concat(" (").concat(prev_name.as_str()).concat(" vs ").concat(
                    new_name.as_str(),
                ).concat("): ").concat(decimal(*prev_crc as u64).as_str()).concat(" != ").concat(
                    decimal(*new_crc as u64).as_str(),
                )
            },
            MergeError::NameConflict { id, prev_name, new_name } => {
                String::from_str("msgid ").concat(decimal(*id as u64).as_str()).concat(
                    " declared under two names: '",
                ).concat(prev_name.as_str()).concat("' and '").concat(new_name.as_str()).concat("'")
            },
        }
    }
}

/// Add a message to the table. A message that the table already holds under the same
/// name and with the same `crc_extra` changes nothing; any other with its id is refused.
pub fn merge_entry(
    msg_id: u32,
    msg_name: String,
    crc_extra: u8,
    min_payload_len: u16,
    target_sys_offset: Option<u16>,
    target_comp_offset: Option<u16>,
    entries: &mut HashMap<u32, MsgEntryGen>,
) -> (r: Result<(), MergeError>)
    ensures
        ({
            let table = old(entries)@;
            if table.contains_key(msg_id) {
                let prev = table[msg_id];
                &&& final(entries)@ == table
                &&& r == if prev.crc_extra != crc_extra {
                    Err(
                        MergeError::CrcExtraConflict {
                            id: msg_id,
                            prev_name: prev.name,
                            new_name: msg_name,
                            prev_crc: prev.crc_extra,
                            new_crc: crc_extra,
                        },
                    )
                } else if prev.name@ != msg_name@ {
                    Err(
                        MergeError::NameConflict {
                            id: msg_id,
                            prev_name: prev.name,
                            new_name: msg_name,
                        },
                    )
                } else {
                    Ok(())
                }
            } else {
                &&& r == Ok::<(), MergeError>(())
                &&& final(entries)@ == table.insert(
                    msg_id,
                    MsgEntryGen {
                        name: msg_name,
                        crc_extra,
                        min_payload_len,
                        target_sys_offset,
                        target_comp_offset,
                    },
                )
            }
        }),
{
    if let Some(prev) = entries.get(&msg_id) {
        if prev.crc_extra != crc_extra {
            return Err(
                MergeError::CrcExtraConflict {
                    id: msg_id,
                    prev_name: prev.name.clone(),
                    new_name: msg_name,
                    prev_crc: prev.crc_extra,
                    new_crc: crc_extra,
                },
            );
        }
        if !prev.name.eq(&msg_name) {
            return Err(
                MergeError::NameConflict {
                    id: msg_id,
                    prev_name: prev.name.clone(),
                    new_name: msg_name,
                },
            );
        }
        return Ok(());
    }
    entries.insert(
        msg_id,
        MsgEntryGen {
            name: msg_name,
            crc_extra,
            min_payload_len,
            target_sys_offset,
            target_comp_offset,
        },
    );
    Ok(())
}

/// A type without brackets is a scalar; an element type with a length in brackets reads back
/// as the two, where the length is from 1 to 255, and is refused where it is not.
pub proof fn law_array_type_reads_back(elem: Seq<char>, n: nat)
    requires
        !elem.contains('['),
        !elem.contains(']'),
    ensures
        array_suffix_spec(elem) == Ok::<_, ParseArrayErrorView>((elem, 0nat)),
        ({
            let r = array_suffix_spec(elem + seq!['['] + text::decimal_spec(n) + seq![']']);
            &&& 1 <= n <= 255 ==> r == Ok::<_, ParseArrayErrorView>((elem, n))
            &&& n == 0 ==> (r matches Err(e) && e is ZeroLength)
            &&& n > 255 ==> (r matches Err(e) && e is BadLength)
        }),
        array_suffix_spec(elem + seq!['['] + text::decimal_spec(n)) matches Err(e)
            && e is Malformed,
{
    let d = text::decimal_spec(n);
    let t = elem + seq!['['] + d + seq![']'];
    let u = elem + seq!['['] + d;
    let lb = elem.len() as int;
    let rb = lb + 1 + d.len();
    text::lemma_decimal_chars(n);
    text::law_numbers_are_read(n, 255, Seq::empty());
    elem.index_of_first_ensures('[');
    assert forall|j: int| 0 <= j < rb implies t[j] != ']' && u[j] != ']' by {
        if j < lb {
            assert(t[j] == elem[j] && u[j] == elem[j]);
        } else if j > lb {
            assert(t[j] == d[j - lb - 1] && u[j] == d[j - lb - 1]);
        }
    }
    assert forall|j: int| 0 <= j < lb implies t[j] != '[' && u[j] != '[' by {
        assert(t[j] == elem[j] && u[j] == elem[j]);
    }
    text::lemma_first_index(t, '[', lb);
    text::lemma_first_index(t, ']', rb);
    text::lemma_first_index(u, '[', lb);
    u.index_of_first_ensures(']');
    assert(t.subrange(lb + 1, rb) =~= d);
    assert(t.take(lb) =~= elem);
}

} // verus!
