//! Writers of the wire forms.

use crate::protocol::cbor::{
    head, write_head, MAJOR_ARRAY, MAJOR_MAP, MAJOR_SIMPLE, MAJOR_TEXT, MAJOR_UINT, SIMPLE_FALSE,
    SIMPLE_TRUE,
};
use crate::protocol::codec::{reg_names, reg_values, MAPPING_FIELDS, REG_COUNT};
use crate::protocol::message::{mappings_view, AdminToNode, Mapping, NodeToAdmin};
use crate::protocol::wire::{enc_entry, enc_fields, enc_items, items_wf, Array, Text, Wire};
use crate::userspace::SavedRegs;
use vstd::prelude::*;

verus! {

/// Appends an unsigned integer.
pub fn write_uint(out: &mut Vec<u8>, n: u64)
    ensures
        final(out)@ == old(out)@ + n.enc(),
{
    write_head(out, MAJOR_UINT, n);
}

/// Appends a truth value.
pub fn write_bool(out: &mut Vec<u8>, b: bool)
    ensures
        final(out)@ == old(out)@ + b.enc(),
{
    write_head(
        out,
        MAJOR_SIMPLE,
        if b {
            SIMPLE_TRUE
        } else {
            SIMPLE_FALSE
        },
    );
}

/// Appends a text.
pub fn write_text(out: &mut Vec<u8>, text: &str)
    ensures
        Text(text@).wf(),
        final(out)@ == old(out)@ + Text(text@).enc(),
{
    let utf8 = text.as_bytes();
    write_head(out, MAJOR_TEXT, utf8.len() as u64);
    out.extend_from_slice(utf8);
    assert(out@ =~= old(out)@ + Text(text@).enc());
}

/// Appends the bytes of a page, as an array of small integers.
pub fn write_bytes(out: &mut Vec<u8>, bytes: &Vec<u8>)
    ensures
        Array(bytes@).wf(),
        final(out)@ == old(out)@ + Array(bytes@).enc(),
{
    write_head(out, MAJOR_ARRAY, bytes.len() as u64);
    let ghost start = out@;
    let mut i: usize = 0;
    assert(enc_items(bytes@.take(0)) =~= Seq::<u8>::empty());
    assert(out@ =~= start + enc_items(bytes@.take(0)));
    while i < bytes.len()
        invariant
            i <= bytes.len(),
            out@ == start + enc_items(bytes@.take(i as int)),
        decreases bytes.len() - i,
    {
        let ghost so_far = out@;
        write_head(out, MAJOR_UINT, bytes[i] as u64);
        proof {
            assert(bytes@.take(i + 1).drop_last() =~= bytes@.take(i as int));
            assert(out@ =~= start + enc_items(bytes@.take(i + 1)));
        }
        i += 1;
    }
    proof {
        assert(bytes@.take(i as int) =~= bytes@);
        assert(out@ =~= old(out)@ + Array(bytes@).enc());
    }
}

/// Appends page identifiers, as an array.
pub fn write_page_ids(out: &mut Vec<u8>, pages: &Vec<u32>)
    ensures
        Array(pages@).wf(),
        final(out)@ == old(out)@ + Array(pages@).enc(),
{
    write_head(out, MAJOR_ARRAY, pages.len() as u64);
    let ghost start = out@;
    let mut i: usize = 0;
    assert(enc_items(pages@.take(0)) =~= Seq::<u8>::empty());
    assert(out@ =~= start + enc_items(pages@.take(0)));
    while i < pages.len()
        invariant
            i <= pages.len(),
            out@ == start + enc_items(pages@.take(i as int)),
        decreases pages.len() - i,
    {
        write_head(out, MAJOR_UINT, pages[i] as u64);
        proof {
            assert(pages@.take(i + 1).drop_last() =~= pages@.take(i as int));
            assert(out@ =~= start + enc_items(pages@.take(i + 1)));
        }
        i += 1;
    }
    proof {
        assert(pages@.take(i as int) =~= pages@);
        assert(out@ =~= old(out)@ + Array(pages@).enc());
    }
}

/// The name of register `i`, in the order in which the registers are
/// written.
pub fn reg_name(i: usize) -> (name: &'static str)
    requires
        i < REG_COUNT,
    ensures
        name@ == reg_names()[i as int],
{
    if i == 0 {
        "rax"
    } else if i == 1 {
        "rbx"
    } else if i == 2 {
        "rcx"
    } else if i == 3 {
        "rdx"
    } else if i == 4 {
        "rdi"
    } else if i == 5 {
        "rsi"
    } else if i == 6 {
        "rbp"
    } else if i == 7 {
        "r8"
    } else if i == 8 {
        "r9"
    } else if i == 9 {
        "r10"
    } else if i == 10 {
        "r11"
    } else if i == 11 {
        "r12"
    } else if i == 12 {
        "r13"
    } else if i == 13 {
        "r14"
    } else if i == 14 {
        "r15"
    } else if i == 15 {
        "rflags"
    } else if i == 16 {
        "rip"
    } else {
        "rsp"
    }
}

/// The value of register `i`, in the order in which the registers are
/// written.
pub fn reg_value(regs: &SavedRegs, i: usize) -> (value: u64)
    requires
        i < REG_COUNT,
    ensures
        value == reg_values(*regs)[i as int],
{
    if i == 0 {
        regs.rax
    } else if i == 1 {
        regs.rbx
    } else if i == 2 {
        regs.rcx
    } else if i == 3 {
        regs.rdx
    } else if i == 4 {
        regs.rdi
    } else if i == 5 {
        regs.rsi
    } else if i == 6 {
        regs.rbp
    } else if i == 7 {
        regs.r8
    } else if i == 8 {
        regs.r9
    } else if i == 9 {
        regs.r10
    } else if i == 10 {
        regs.r11
    } else if i == 11 {
        regs.r12
    } else if i == 12 {
        regs.r13
    } else if i == 13 {
        regs.r14
    } else if i == 14 {
        regs.r15
    } else if i == 15 {
        regs.rflags
    } else if i == 16 {
        regs.rip
    } else {
        regs.rsp
    }
}

/// Appends a register snapshot.
pub fn write_regs(out: &mut Vec<u8>, regs: &SavedRegs)
    ensures
        final(out)@ == old(out)@ + regs.enc(),
{
    write_head(out, MAJOR_MAP, REG_COUNT as u64);
    let ghost start = out@;
    let ghost values = reg_values(*regs);
    let mut i: usize = 0;
    assert(enc_fields(reg_names(), values.take(0)) =~= Seq::<u8>::empty());
    assert(out@ =~= start + enc_fields(reg_names(), values.take(0)));
    while i < REG_COUNT
        invariant
            i <= REG_COUNT,
            values == reg_values(*regs),
            out@ == start + enc_fields(reg_names(), values.take(i as int)),
        decreases REG_COUNT - i,
    {
        let ghost so_far = out@;
        write_text(out, reg_name(i));
        write_uint(out, reg_value(regs, i));
        proof {
            assert(values.take(i + 1).drop_last() =~= values.take(i as int));
            assert(values.take(i + 1).last() == values[i as int]);
            assert(out@ =~= so_far + enc_entry(reg_names()[i as int], values[i as int]));
            assert(out@ =~= start + enc_fields(reg_names(), values.take(i + 1)));
        }
        i += 1;
    }
    proof {
        assert(values.take(i as int) =~= values);
        assert(out@ =~= old(out)@ + regs.enc());
    }
}

/// Appends the entry of a field that holds a truth value.
fn write_bool_entry(out: &mut Vec<u8>, name: &str, value: bool)
    ensures
        final(out)@ == old(out)@ + enc_entry(name@, value),
{
    write_text(out, name);
    write_bool(out, value);
    assert(out@ =~= old(out)@ + enc_entry(name@, value));
}

/// Appends the entry of a field that holds an unsigned integer.
fn write_uint_entry(out: &mut Vec<u8>, name: &str, value: u64)
    ensures
        final(out)@ == old(out)@ + enc_entry(name@, value),
{
    write_text(out, name);
    write_uint(out, value);
    assert(out@ =~= old(out)@ + enc_entry(name@, value));
}

/// Appends the entry of a field that holds a text.
fn write_text_entry(out: &mut Vec<u8>, name: &str, value: &str)
    ensures
        Text(value@).wf(),
        final(out)@ == old(out)@ + enc_entry(name@, Text(value@)),
{
    write_text(out, name);
    write_text(out, value);
    assert(out@ =~= old(out)@ + enc_entry(name@, Text(value@)));
}

/// Appends the entry of a field that holds page identifiers.
fn write_page_ids_entry(out: &mut Vec<u8>, name: &str, value: &Vec<u32>)
    ensures
        Array(value@).wf(),
        final(out)@ == old(out)@ + enc_entry(name@, Array(value@)),
{
    write_text(out, name);
    write_page_ids(out, value);
    assert(out@ =~= old(out)@ + enc_entry(name@, Array(value@)));
}

/// Appends a mapping.
pub fn write_mapping(out: &mut Vec<u8>, mapping: &Mapping)
    ensures
        mapping@.wf(),
        final(out)@ == old(out)@ + mapping@.enc(),
{
    let ghost before = out@;
    let ghost opened = head(MAJOR_MAP, MAPPING_FIELDS);
    let ghost one = opened + enc_entry("perm_r"@, mapping.perm_r);
    let ghost two = one + enc_entry("perm_w"@, mapping.perm_w);
    let ghost three = two + enc_entry("perm_x"@, mapping.perm_x);
    let ghost four = three + enc_entry("page_start"@, mapping.page_start);
    let ghost five = four + enc_entry("page_end"@, mapping.page_end);
    let ghost six = five + enc_entry("hint"@, Text(mapping.hint@));
    write_head(out, MAJOR_MAP, MAPPING_FIELDS);
    write_bool_entry(out, "perm_r", mapping.perm_r);
    assert(out@ =~= before + one);
    write_bool_entry(out, "perm_w", mapping.perm_w);
    assert(out@ =~= before + two);
    write_bool_entry(out, "perm_x", mapping.perm_x);
    assert(out@ =~= before + three);
    write_uint_entry(out, "page_start", mapping.page_start);
    assert(out@ =~= before + four);
    write_uint_entry(out, "page_end", mapping.page_end);
    assert(out@ =~= before + five);
    write_text_entry(out, "hint", mapping.hint.as_str());
    assert(out@ =~= before + six);
    write_page_ids_entry(out, "pages", &mapping.pages);
    assert(out@ =~= before + (six + enc_entry("pages"@, Array(mapping.pages@))));
}

/// Appends mappings, as an array.
pub fn write_mappings(out: &mut Vec<u8>, mappings: &Vec<Mapping>)
    ensures
        Array(mappings_view(mappings@)).wf(),
        final(out)@ == old(out)@ + Array(mappings_view(mappings@)).enc(),
{
    write_head(out, MAJOR_ARRAY, mappings.len() as u64);
    let ghost start = out@;
    let ghost views = mappings_view(mappings@);
    let mut i: usize = 0;
    assert(enc_items(views.take(0)) =~= Seq::<u8>::empty());
    assert(out@ =~= start + enc_items(views.take(0)));
    while i < mappings.len()
        invariant
            i <= mappings.len(),
            views == mappings_view(mappings@),
            items_wf(views.take(i as int)),
            out@ == start + enc_items(views.take(i as int)),
        decreases mappings.len() - i,
    {
        write_mapping(out, &mappings[i]);
        proof {
            assert(views.take(i + 1).drop_last() =~= views.take(i as int));
            assert(views.take(i + 1).last() == mappings@[i as int]@);
            assert(out@ =~= start + enc_items(views.take(i + 1)));
            assert forall|k: int| 0 <= k < i + 1 implies (#[trigger] views.take(i + 1)[k]).wf() by {
                if k < i {
                    assert(views.take(i as int)[k] == views.take(i + 1)[k]);
                }
            }
        }
        i += 1;
    }
    proof {
        assert(views.take(i as int) =~= views);
        assert(out@ =~= old(out)@ + Array(views).enc());
    }
}

/// The wire form of a message of the administrator.
pub fn encode_admin(message: &AdminToNode) -> (bytes: Vec<u8>)
    ensures
        message@.wf(),
        bytes@ == message@.enc(),
{
    let mut out: Vec<u8> = Vec::new();
    write_head(&mut out, MAJOR_MAP, 1);
    match message {
        AdminToNode::PushPage { page_id, page } => {
            write_text(&mut out, "PushPage");
            write_head(&mut out, MAJOR_MAP, 2);
            write_text(&mut out, "page_id");
            write_uint(&mut out, *page_id as u64);
            write_text(&mut out, "page");
            write_bytes(&mut out, page);
        },
        AdminToNode::PushSnapshot { regs, mappings } => {
            write_text(&mut out, "PushSnapshot");
            write_head(&mut out, MAJOR_MAP, 2);
            write_text(&mut out, "regs");
            write_regs(&mut out, regs);
            write_text(&mut out, "mappings");
            write_mappings(&mut out, mappings);
        },
    }
    assert(out@ =~= message@.enc());
    out
}

/// The wire form of a message of the node.
pub fn encode_node(message: NodeToAdmin) -> (bytes: Vec<u8>)
    ensures
        bytes@ == message.enc(),
{
    let mut out: Vec<u8> = Vec::new();
    write_text(&mut out, "Ready");
    assert(out@ =~= message.enc());
    out
}

} // verus!
