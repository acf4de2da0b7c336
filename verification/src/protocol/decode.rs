//! Readers of the wire forms.

use crate::error::ProtocolError;
use crate::protocol::cbor::{
    holds_at, parse_head_at, read_head, MAJOR_ARRAY, MAJOR_MAP, MAJOR_SIMPLE, MAJOR_TEXT,
    MAJOR_UINT, SIMPLE_FALSE, SIMPLE_TRUE,
};
use crate::protocol::codec::{
    lemma_variant_names_differ, reg_names, regs_of, PagePush, SnapshotPush, MAPPING_FIELDS,
    REG_COUNT,
};
use crate::protocol::encode::{reg_name, write_text};
use crate::protocol::message::{
    mappings_view, AdminToNode, AdminToNodeView, Mapping, MappingView, NodeToAdmin,
};
use crate::protocol::wire::{
    decoded, key_at, lemma_decoded, lemma_parse_fields_fewer, lemma_parse_items_fewer,
    map_head_at, next_entry, parse_entry_at, parse_fields_at, parse_items_at, parse_uint_at,
    Array, Text, Wire,
};
use crate::userspace::SavedRegs;
use vstd::prelude::*;
use vstd::slice::{slice_subrange, slice_to_vec};
use vstd::utf8::{decode_utf8, valid_utf8};

verus! {

/// Calls `String::from_utf8`. Trusted: it returns the string whose UTF-8
/// encoding the bytes are, and fails exactly if the bytes are not valid
/// UTF-8.
#[verifier::external_body]
fn string_from_utf8(bytes: Vec<u8>) -> (r: Option<String>)
    ensures
        valid_utf8(bytes@) == (r is Some),
        valid_utf8(bytes@) ==> r->Some_0@ == decode_utf8(bytes@),
{
    String::from_utf8(bytes).ok()
}

/// Whether the bytes of `piece` stand in `bytes` from position `at` on.
pub fn stands_at(bytes: &[u8], at: usize, piece: &[u8]) -> (r: bool)
    ensures
        r == holds_at(bytes@, at as int, piece@),
{
    if at > bytes.len() || piece.len() > bytes.len() - at {
        return false;
    }
    let mut i: usize = 0;
    while i < piece.len()
        invariant
            i <= piece.len(),
            at + piece.len() <= bytes.len(),
            forall|k: int| 0 <= k < i ==> bytes@[at + k] == piece@[k],
        decreases piece.len() - i,
    {
        if bytes[at + i] != piece[i] {
            assert(bytes@.subrange(at as int, at + piece@.len())[i as int] != piece@[i as int]);
            return false;
        }
        i += 1;
    }
    assert(bytes@.subrange(at as int, at + piece@.len()) =~= piece@);
    true
}

/// Reads an unsigned integer of at most `max` at position `at`.
pub fn read_uint(bytes: &[u8], at: usize, max: u64) -> (r: Option<(u64, usize)>)
    ensures
        match r {
            Some((n, end)) => parse_uint_at(bytes@, at as int, max) == Some((n, end as int))
                && end <= bytes@.len(),
            None => parse_uint_at(bytes@, at as int, max) is None,
        },
{
    match read_head(bytes, at) {
        Some((major, n, end)) => if major == MAJOR_UINT && n <= max {
            Some((n, end))
        } else {
            None
        },
        None => None,
    }
}

/// Reads a truth value at position `at`.
pub fn read_bool(bytes: &[u8], at: usize) -> (r: Option<(bool, usize)>)
    ensures
        match r {
            Some((b, end)) => bool::parse_at(bytes@, at as int) == Some((b, end as int)) && end
                <= bytes@.len(),
            None => bool::parse_at(bytes@, at as int) is None,
        },
{
    match read_head(bytes, at) {
        Some((major, n, end)) => if major == MAJOR_SIMPLE && (n == SIMPLE_FALSE || n
            == SIMPLE_TRUE) {
            Some((n == SIMPLE_TRUE, end))
        } else {
            None
        },
        None => None,
    }
}

/// Reads a text at position `at`.
pub fn read_text(bytes: &[u8], at: usize) -> (r: Option<(String, usize)>)
    ensures
        match r {
            Some((text, end)) => Text::parse_at(bytes@, at as int) == Some(
                (Text(text@), end as int),
            ) && end <= bytes@.len(),
            None => Text::parse_at(bytes@, at as int) is None,
        },
{
    let (major, n, start) = match read_head(bytes, at) {
        Some(read) => read,
        None => {
            return None;
        },
    };
    if major != MAJOR_TEXT || n > (bytes.len() - start) as u64 {
        return None;
    }
    let end = start + n as usize;
    let utf8 = slice_to_vec(slice_subrange(bytes, start, end));
    match string_from_utf8(utf8) {
        Some(value) => Some((value, end)),
        None => None,
    }
}

/// Whether the text `name` stands at position `at`; if so, the position
/// after it.
pub fn expect_key(bytes: &[u8], at: usize, name: &str) -> (r: Option<usize>)
    ensures
        match r {
            Some(end) => key_at(bytes@, at as int, name@) == Some(end as int) && end
                <= bytes@.len(),
            None => key_at(bytes@, at as int, name@) is None,
        },
{
    let total = bytes.len();
    let mut expected: Vec<u8> = Vec::new();
    write_text(&mut expected, name);
    assert(expected@ =~= Text(name@).enc());
    if stands_at(bytes, at, expected.as_slice()) {
        assert(at + expected@.len() <= total);
        Some(at + expected.len())
    } else {
        None
    }
}

/// Whether the head of a map with `count` entries stands at position `at`;
/// if so, the position after it.
pub fn expect_map_head(bytes: &[u8], at: usize, count: u64) -> (r: Option<usize>)
    ensures
        match r {
            Some(end) => map_head_at(bytes@, at as int, count) == Some(end as int) && end
                <= bytes@.len(),
            None => map_head_at(bytes@, at as int, count) is None,
        },
{
    match read_head(bytes, at) {
        Some((major, n, end)) => if major == MAJOR_MAP && n == count {
            Some(end)
        } else {
            None
        },
        None => None,
    }
}

/// Reads the bytes of a page, written as an array of small integers.
pub fn read_bytes(bytes: &[u8], at: usize) -> (r: Option<(Vec<u8>, usize)>)
    ensures
        match r {
            Some((items, end)) => Array::<u8>::parse_at(bytes@, at as int) == Some(
                (Array(items@), end as int),
            ) && end <= bytes@.len(),
            None => Array::<u8>::parse_at(bytes@, at as int) is None,
        },
{
    let (major, n, start) = match read_head(bytes, at) {
        Some(read) => read,
        None => {
            return None;
        },
    };
    if major != MAJOR_ARRAY {
        return None;
    }
    let mut items: Vec<u8> = Vec::new();
    let mut pos = start;
    let mut count: u64 = 0;
    while count < n
        invariant
            count <= n,
            pos <= bytes@.len(),
            major == MAJOR_ARRAY,
            parse_head_at(bytes@, at as int) == Some((major, n, start as int)),
            parse_items_at::<u8>(bytes@, start as int, count as nat) == Some((items@, pos as int)),
        decreases n - count,
    {
        let ghost read = items@;
        let ghost more = parse_items_at::<u8>(bytes@, start as int, (count + 1) as nat);
        assert(more == match u8::parse_at(bytes@, pos as int) {
            Some((item, after)) => Some((read.push(item), after)),
            None => None,
        });
        match read_uint(bytes, pos, u8::MAX as u64) {
            Some((item, end)) => {
                items.push(item as u8);
                pos = end;
            },
            None => {
                proof {
                    if parse_items_at::<u8>(bytes@, start as int, n as nat) is Some {
                        lemma_parse_items_fewer::<u8>(
                            bytes@,
                            start as int,
                            (count + 1) as nat,
                            n as nat,
                        );
                    }
                }
                return None;
            },
        }
        count += 1;
    }
    Some((items, pos))
}

/// Reads page identifiers, written as an array.
pub fn read_page_ids(bytes: &[u8], at: usize) -> (r: Option<(Vec<u32>, usize)>)
    ensures
        match r {
            Some((items, end)) => Array::<u32>::parse_at(bytes@, at as int) == Some(
                (Array(items@), end as int),
            ) && end <= bytes@.len(),
            None => Array::<u32>::parse_at(bytes@, at as int) is None,
        },
{
    let (major, n, start) = match read_head(bytes, at) {
        Some(read) => read,
        None => {
            return None;
        },
    };
    if major != MAJOR_ARRAY {
        return None;
    }
    let mut items: Vec<u32> = Vec::new();
    let mut pos = start;
    let mut count: u64 = 0;
    while count < n
        invariant
            count <= n,
            pos <= bytes@.len(),
            major == MAJOR_ARRAY,
            parse_head_at(bytes@, at as int) == Some((major, n, start as int)),
            parse_items_at::<u32>(bytes@, start as int, count as nat) == Some(
                (items@, pos as int),
            ),
        decreases n - count,
    {
        let ghost read = items@;
        let ghost more = parse_items_at::<u32>(bytes@, start as int, (count + 1) as nat);
        assert(more == match u32::parse_at(bytes@, pos as int) {
            Some((item, after)) => Some((read.push(item), after)),
            None => None,
        });
        match read_uint(bytes, pos, u32::MAX as u64) {
            Some((item, end)) => {
                items.push(item as u32);
                pos = end;
            },
            None => {
                proof {
                    if parse_items_at::<u32>(bytes@, start as int, n as nat) is Some {
                        lemma_parse_items_fewer::<u32>(
                            bytes@,
                            start as int,
                            (count + 1) as nat,
                            n as nat,
                        );
                    }
                }
                return None;
            },
        }
        count += 1;
    }
    Some((items, pos))
}

/// The snapshot with the given values, in the order in which the registers
/// are written.
pub fn regs_from(values: &Vec<u64>) -> (regs: SavedRegs)
    requires
        values@.len() == REG_COUNT,
    ensures
        regs == regs_of(values@),
{
    SavedRegs {
        rax: values[0],
        rbx: values[1],
        rcx: values[2],
        rdx: values[3],
        rdi: values[4],
        rsi: values[5],
        rbp: values[6],
        r8: values[7],
        r9: values[8],
        r10: values[9],
        r11: values[10],
        r12: values[11],
        r13: values[12],
        r14: values[13],
        r15: values[14],
        rflags: values[15],
        rip: values[16],
        rsp: values[17],
    }
}

/// Reads a register snapshot at position `at`.
pub fn read_regs(bytes: &[u8], at: usize) -> (r: Option<(SavedRegs, usize)>)
    ensures
        match r {
            Some((regs, end)) => SavedRegs::parse_at(bytes@, at as int) == Some(
                (regs, end as int),
            ) && end <= bytes@.len(),
            None => SavedRegs::parse_at(bytes@, at as int) is None,
        },
{
    let start = match expect_map_head(bytes, at, REG_COUNT as u64) {
        Some(start) => start,
        None => {
            return None;
        },
    };
    let mut values: Vec<u64> = Vec::new();
    let mut pos = start;
    let mut i: usize = 0;
    while i < REG_COUNT
        invariant
            i <= REG_COUNT,
            pos <= bytes@.len(),
            map_head_at(bytes@, at as int, REG_COUNT as u64) == Some(start as int),
            parse_fields_at(bytes@, start as int, reg_names(), i as nat) == Some(
                (values@, pos as int),
            ),
        decreases REG_COUNT - i,
    {
        let ghost so_far = values@;
        let ghost more = parse_fields_at(bytes@, start as int, reg_names(), (i + 1) as nat);
        assert(more == match parse_entry_at::<u64>(bytes@, pos as int, reg_names()[i as int]) {
            Some((value, after)) => Some((so_far.push(value), after)),
            None => None,
        });
        let read = match expect_key(bytes, pos, reg_name(i)) {
            Some(value_at) => read_uint(bytes, value_at, u64::MAX),
            None => None,
        };
        match read {
            Some((value, end)) => {
                values.push(value);
                pos = end;
            },
            None => {
                proof {
                    if parse_fields_at(bytes@, start as int, reg_names(), REG_COUNT as nat)
                        is Some {
                        lemma_parse_fields_fewer(
                            bytes@,
                            start as int,
                            reg_names(),
                            (i + 1) as nat,
                            REG_COUNT as nat,
                        );
                    }
                }
                return None;
            },
        }
        i += 1;
    }
    proof {
        crate::protocol::wire::lemma_parse_fields_sound(
            bytes@,
            start as int,
            reg_names(),
            REG_COUNT as nat,
        );
    }
    Some((regs_from(&values), pos))
}

/// Reads the entry of a field that holds a truth value.
fn read_bool_entry(bytes: &[u8], at: usize, name: &str) -> (r: Option<(bool, usize)>)
    ensures
        match r {
            Some((value, end)) => parse_entry_at::<bool>(bytes@, at as int, name@) == Some(
                (value, end as int),
            ) && end <= bytes@.len(),
            None => parse_entry_at::<bool>(bytes@, at as int, name@) is None,
        },
{
    match expect_key(bytes, at, name) {
        Some(start) => read_bool(bytes, start),
        None => None,
    }
}

/// Reads the entry of a field that holds an unsigned integer.
fn read_uint_entry(bytes: &[u8], at: usize, name: &str) -> (r: Option<(u64, usize)>)
    ensures
        match r {
            Some((value, end)) => parse_entry_at::<u64>(bytes@, at as int, name@) == Some(
                (value, end as int),
            ) && end <= bytes@.len(),
            None => parse_entry_at::<u64>(bytes@, at as int, name@) is None,
        },
{
    match expect_key(bytes, at, name) {
        Some(start) => read_uint(bytes, start, u64::MAX),
        None => None,
    }
}

/// Reads a mapping at position `at`.
pub fn read_mapping(bytes: &[u8], at: usize) -> (r: Option<(Mapping, usize)>)
    ensures
        match r {
            Some((mapping, end)) => MappingView::parse_at(bytes@, at as int) == Some(
                (mapping@, end as int),
            ) && end <= bytes@.len(),
            None => MappingView::parse_at(bytes@, at as int) is None,
        },
{
    let ghost s = bytes@;
    let start = expect_map_head(bytes, at, MAPPING_FIELDS)?;
    let (perm_r, after_r) = read_bool_entry(bytes, start, "perm_r")?;
    assert(next_entry::<bool>(s, Some(start as int), "perm_r"@) == Some(
        (perm_r, after_r as int),
    ));
    let (perm_w, after_w) = read_bool_entry(bytes, after_r, "perm_w")?;
    assert(next_entry::<bool>(s, Some(after_r as int), "perm_w"@) == Some(
        (perm_w, after_w as int),
    ));
    let (perm_x, after_x) = read_bool_entry(bytes, after_w, "perm_x")?;
    assert(next_entry::<bool>(s, Some(after_w as int), "perm_x"@) == Some(
        (perm_x, after_x as int),
    ));
    let (page_start, after_start) = read_uint_entry(bytes, after_x, "page_start")?;
    assert(next_entry::<u64>(s, Some(after_x as int), "page_start"@) == Some(
        (page_start, after_start as int),
    ));
    let (page_end, after_end) = read_uint_entry(bytes, after_start, "page_end")?;
    assert(next_entry::<u64>(s, Some(after_start as int), "page_end"@) == Some(
        (page_end, after_end as int),
    ));
    let hint_at = expect_key(bytes, after_end, "hint")?;
    let (hint, after_hint) = read_text(bytes, hint_at)?;
    assert(next_entry::<Text>(s, Some(after_end as int), "hint"@) == Some(
        (Text(hint@), after_hint as int),
    ));
    let pages_at = expect_key(bytes, after_hint, "pages")?;
    let (pages, end) = read_page_ids(bytes, pages_at)?;
    assert(next_entry::<Array<u32>>(s, Some(after_hint as int), "pages"@) == Some(
        (Array(pages@), end as int),
    ));
    Some((Mapping { perm_r, perm_w, perm_x, page_start, page_end, hint, pages }, end))
}

/// Reads mappings, written as an array.
pub fn read_mappings(bytes: &[u8], at: usize) -> (r: Option<(Vec<Mapping>, usize)>)
    ensures
        match r {
            Some((items, end)) => Array::<MappingView>::parse_at(bytes@, at as int) == Some(
                (Array(mappings_view(items@)), end as int),
            ) && end <= bytes@.len(),
            None => Array::<MappingView>::parse_at(bytes@, at as int) is None,
        },
{
    let (major, n, start) = match read_head(bytes, at) {
        Some(read) => read,
        None => {
            return None;
        },
    };
    if major != MAJOR_ARRAY {
        return None;
    }
    let mut items: Vec<Mapping> = Vec::new();
    let mut pos = start;
    let mut count: u64 = 0;
    assert(mappings_view(items@) =~= Seq::<MappingView>::empty());
    while count < n
        invariant
            count <= n,
            pos <= bytes@.len(),
            major == MAJOR_ARRAY,
            parse_head_at(bytes@, at as int) == Some((major, n, start as int)),
            parse_items_at::<MappingView>(bytes@, start as int, count as nat) == Some(
                (mappings_view(items@), pos as int),
            ),
        decreases n - count,
    {
        let ghost read = mappings_view(items@);
        let ghost more = parse_items_at::<MappingView>(bytes@, start as int, (count + 1) as nat);
        assert(more == match MappingView::parse_at(bytes@, pos as int) {
            Some((item, after)) => Some((read.push(item), after)),
            None => None,
        });
        match read_mapping(bytes, pos) {
            Some((item, end)) => {
                let ghost view = item@;
                items.push(item);
                pos = end;
                assert(mappings_view(items@) =~= read.push(view));
            },
            None => {
                proof {
                    if parse_items_at::<MappingView>(bytes@, start as int, n as nat) is Some {
                        lemma_parse_items_fewer::<MappingView>(
                            bytes@,
                            start as int,
                            (count + 1) as nat,
                            n as nat,
                        );
                    }
                }
                return None;
            },
        }
        count += 1;
    }
    Some((items, pos))
}

/// Reads the fields of a pushed page at position `at`.
fn read_page_push(bytes: &[u8], at: usize) -> (r: Option<(u32, Vec<u8>, usize)>)
    ensures
        match r {
            Some((page_id, page, end)) => PagePush::parse_at(bytes@, at as int) == Some(
                (PagePush { page_id, page: page@ }, end as int),
            ) && end <= bytes@.len(),
            None => PagePush::parse_at(bytes@, at as int) is None,
        },
{
    let start = expect_map_head(bytes, at, 2)?;
    let id_at = expect_key(bytes, start, "page_id")?;
    let (page_id, after_id) = read_uint(bytes, id_at, u32::MAX as u64)?;
    assert(next_entry::<u32>(bytes@, Some(start as int), "page_id"@) == Some(
        (page_id as u32, after_id as int),
    ));
    let page_at = expect_key(bytes, after_id, "page")?;
    let (page, end) = read_bytes(bytes, page_at)?;
    Some((page_id as u32, page, end))
}

/// Reads the fields of a pushed snapshot at position `at`.
fn read_snapshot_push(bytes: &[u8], at: usize) -> (r: Option<(SavedRegs, Vec<Mapping>, usize)>)
    ensures
        match r {
            Some((regs, mappings, end)) => SnapshotPush::parse_at(bytes@, at as int) == Some(
                (SnapshotPush { regs, mappings: mappings_view(mappings@) }, end as int),
            ) && end <= bytes@.len(),
            None => SnapshotPush::parse_at(bytes@, at as int) is None,
        },
{
    let start = expect_map_head(bytes, at, 2)?;
    let regs_at = expect_key(bytes, start, "regs")?;
    let (regs, after_regs) = read_regs(bytes, regs_at)?;
    assert(next_entry::<SavedRegs>(bytes@, Some(start as int), "regs"@) == Some(
        (regs, after_regs as int),
    ));
    let mappings_at = expect_key(bytes, after_regs, "mappings")?;
    let (mappings, end) = read_mappings(bytes, mappings_at)?;
    Some((regs, mappings, end))
}

/// Reads a message of the administrator at position `at`.
pub fn read_admin(bytes: &[u8], at: usize) -> (r: Option<(AdminToNode, usize)>)
    ensures
        match r {
            Some((message, end)) => AdminToNodeView::parse_at(bytes@, at as int) == Some(
                (message@, end as int),
            ) && end <= bytes@.len(),
            None => AdminToNodeView::parse_at(bytes@, at as int) is None,
        },
{
    let start = expect_map_head(bytes, at, 1)?;
    match expect_key(bytes, start, "PushPage") {
        Some(body_at) => match read_page_push(bytes, body_at) {
            Some((page_id, page, end)) => Some((AdminToNode::PushPage { page_id, page }, end)),
            None => {
                proof {
                    lemma_variant_names_differ();
                    let s = bytes@;
                    let name = Text("PushPage"@).enc();
                    let other = Text("PushSnapshot"@).enc();
                    assert(s[start as int] == s.subrange(start as int, start + name.len())[0]);
                    if holds_at(s, start as int, other) {
                        assert(s[start as int] == s.subrange(start as int, start + other.len())[0]);
                    }
                    assert(key_at(s, start as int, "PushSnapshot"@) is None);
                }
                None
            },
        },
        None => {
            let body_at = expect_key(bytes, start, "PushSnapshot")?;
            match read_snapshot_push(bytes, body_at) {
                Some((regs, mappings, end)) => Some(
                    (AdminToNode::PushSnapshot { regs, mappings }, end),
                ),
                None => None,
            }
        },
    }
}

/// Decodes a message of the administrator: the message whose wire form the
/// payload is. Any other payload is malformed.
///
/// A message has one wire form, the one that [`encode_admin`] writes, and
/// only that form is read: maps and arrays of definite length, every argument
/// in its shortest form, and the fields of a map under their names, in the
/// order of their declaration, none missing and none added. A payload that
/// spells the same values in another way (the fields in another order, an
/// argument in more bytes than it needs, an array of indefinite length, a
/// page as a byte string) is malformed.
///
/// [`encode_admin`]: crate::protocol::encode::encode_admin
pub fn decode_admin(payload: &[u8]) -> (r: Result<AdminToNode, ProtocolError>)
    ensures
        match r {
            Ok(message) => decoded::<AdminToNodeView>(payload@) == Some(message@)
                && message@.wf() && message@.enc() == payload@,
            Err(e) => e == ProtocolError::Malformed && decoded::<AdminToNodeView>(payload@)
                is None,
        },
{
    proof {
        lemma_decoded::<AdminToNodeView>(payload@);
    }
    match read_admin(payload, 0) {
        Some((message, end)) => if end == payload.len() {
            Ok(message)
        } else {
            Err(ProtocolError::Malformed)
        },
        None => Err(ProtocolError::Malformed),
    }
}

/// Decodes a message of the node: the message whose wire form the payload
/// is. Any other payload is malformed; as for the messages of the
/// administrator, only the one form that is written is read.
pub fn decode_node(payload: &[u8]) -> (r: Result<NodeToAdmin, ProtocolError>)
    ensures
        match r {
            Ok(message) => decoded::<NodeToAdmin>(payload@) == Some(message) && message.enc()
                == payload@,
            Err(e) => e == ProtocolError::Malformed && decoded::<NodeToAdmin>(payload@) is None,
        },
{
    proof {
        lemma_decoded::<NodeToAdmin>(payload@);
    }
    match expect_key(payload, 0, "Ready") {
        Some(end) => if end == payload.len() {
            Ok(NodeToAdmin::Ready)
        } else {
            Err(ProtocolError::Malformed)
        },
        None => Err(ProtocolError::Malformed),
    }
}

} // verus!
