//! The wire forms of the messages. A message is written as a map with text
//! keys, an enum variant as a map with one entry under the name of the
//! variant, in the order in which the fields are declared.

use crate::protocol::cbor::{
    head, holds_at, lemma_head_len, lemma_parse_head, lemma_parse_head_sound, MAJOR_MAP,
    MAJOR_TEXT,
};
use crate::protocol::message::{AdminToNodeView, MappingView, NodeToAdmin};
use crate::protocol::wire::{
    enc_entry, enc_fields, end_of, key_at, lemma_holds_split, lemma_next_entry,
    lemma_next_entry_sound, lemma_parse_fields, lemma_parse_fields_sound, map_head_at,
    next_entry, parse_fields_at, Array, Text, Wire,
};
use crate::userspace::SavedRegs;
use vstd::prelude::*;
use vstd::utf8::{is_ascii_chars, is_ascii_chars_encode_utf8};

verus! {

/// The number of registers in a snapshot.
pub const REG_COUNT: usize = 18;

/// The names of the registers, in the order in which they are written.
pub open spec fn reg_names() -> Seq<Seq<char>> {
    seq![
        "rax"@,
        "rbx"@,
        "rcx"@,
        "rdx"@,
        "rdi"@,
        "rsi"@,
        "rbp"@,
        "r8"@,
        "r9"@,
        "r10"@,
        "r11"@,
        "r12"@,
        "r13"@,
        "r14"@,
        "r15"@,
        "rflags"@,
        "rip"@,
        "rsp"@,
    ]
}

/// The values of the registers, in the order in which they are written.
pub open spec fn reg_values(regs: SavedRegs) -> Seq<u64> {
    seq![
        regs.rax,
        regs.rbx,
        regs.rcx,
        regs.rdx,
        regs.rdi,
        regs.rsi,
        regs.rbp,
        regs.r8,
        regs.r9,
        regs.r10,
        regs.r11,
        regs.r12,
        regs.r13,
        regs.r14,
        regs.r15,
        regs.rflags,
        regs.rip,
        regs.rsp,
    ]
}

/// The snapshot with the given values, in the order in which they are
/// written.
pub open spec fn regs_of(values: Seq<u64>) -> SavedRegs {
    SavedRegs {
        rax: values[0],
        rbx: values[1],
        rcx: values[2],
        rdx: values[3],
        rdi: values[4],
        rsi: values[5],
        rbp: values[6],
        r8: values[7],
        r9: values[8],
        r10: values[9],
        r11: values[10],
        r12: values[11],
        r13: values[12],
        r14: values[13],
        r15: values[14],
        rflags: values[15],
        rip: values[16],
        rsp: values[17],
    }
}

/// The head of a map with `count` entries is read back where it stands.
pub proof fn lemma_map_head(s: Seq<u8>, at: int, count: u64)
    requires
        holds_at(s, at, head(MAJOR_MAP, count)),
    ensures
        map_head_at(s, at, count) == Some(at + head(MAJOR_MAP, count).len()),
{
    lemma_parse_head(s, at, MAJOR_MAP, count);
}

/// Where the head of a map is read, it stands.
pub proof fn lemma_map_head_sound(s: Seq<u8>, at: int, count: u64)
    ensures
        map_head_at(s, at, count) matches Some(end) ==> holds_at(s, at, head(MAJOR_MAP, count))
            && end == at + head(MAJOR_MAP, count).len(),
{
    lemma_parse_head_sound(s, at);
}

impl Wire for SavedRegs {
    open spec fn wf(self) -> bool {
        true
    }

    open spec fn enc(self) -> Seq<u8> {
        head(MAJOR_MAP, REG_COUNT as u64) + enc_fields(reg_names(), reg_values(self))
    }

    open spec fn parse_at(s: Seq<u8>, at: int) -> Option<(SavedRegs, int)> {
        match map_head_at(s, at, REG_COUNT as u64) {
            Some(start) => match parse_fields_at(s, start, reg_names(), REG_COUNT as nat) {
                Some((values, end)) => Some((regs_of(values), end)),
                None => None,
            },
            None => None,
        }
    }

    proof fn lemma_parse_enc(self, s: Seq<u8>, at: int) {
        let first = head(MAJOR_MAP, REG_COUNT as u64);
        let values = reg_values(self);
        lemma_holds_split(s, at, first, enc_fields(reg_names(), values));
        lemma_map_head(s, at, REG_COUNT as u64);
        lemma_parse_fields(reg_names(), values, s, at + first.len());
    }

    proof fn lemma_parse_sound(s: Seq<u8>, at: int) {
        lemma_map_head_sound(s, at, REG_COUNT as u64);
        if let Some((regs, end)) = Self::parse_at(s, at) {
            let start = map_head_at(s, at, REG_COUNT as u64)->Some_0;
            lemma_parse_fields_sound(s, start, reg_names(), REG_COUNT as nat);
            let values = parse_fields_at(s, start, reg_names(), REG_COUNT as nat)->Some_0.0;
            assert(reg_values(regs) =~= values);
            lemma_holds_split(
                s,
                at,
                head(MAJOR_MAP, REG_COUNT as u64),
                enc_fields(reg_names(), values),
            );
        }
    }
}

/// The number of fields of a mapping.
pub const MAPPING_FIELDS: u64 = 7;

impl Wire for MappingView {
    open spec fn wf(self) -> bool {
        Text(self.hint).wf() && Array(self.pages).wf()
    }

    open spec fn enc(self) -> Seq<u8> {
        head(MAJOR_MAP, MAPPING_FIELDS) + enc_entry("perm_r"@, self.perm_r) + enc_entry(
            "perm_w"@,
            self.perm_w,
        ) + enc_entry("perm_x"@, self.perm_x) + enc_entry("page_start"@, self.page_start)
            + enc_entry("page_end"@, self.page_end) + enc_entry("hint"@, Text(self.hint))
            + enc_entry("pages"@, Array(self.pages))
    }

    open spec fn parse_at(s: Seq<u8>, at: int) -> Option<(MappingView, int)> {
        let perm_r = next_entry::<bool>(s, map_head_at(s, at, MAPPING_FIELDS), "perm_r"@);
        let perm_w = next_entry::<bool>(s, end_of(perm_r), "perm_w"@);
        let perm_x = next_entry::<bool>(s, end_of(perm_w), "perm_x"@);
        let page_start = next_entry::<u64>(s, end_of(perm_x), "page_start"@);
        let page_end = next_entry::<u64>(s, end_of(page_start), "page_end"@);
        let hint = next_entry::<Text>(s, end_of(page_end), "hint"@);
        let pages = next_entry::<Array<u32>>(s, end_of(hint), "pages"@);
        match pages {
            Some((pages, end)) => Some(
                (
                    MappingView {
                        perm_r: perm_r->Some_0.0,
                        perm_w: perm_w->Some_0.0,
                        perm_x: perm_x->Some_0.0,
                        page_start: page_start->Some_0.0,
                        page_end: page_end->Some_0.0,
                        hint: hint->Some_0.0.0,
                        pages: pages.0,
                    },
                    end,
                ),
            ),
            None => None,
        }
    }

    proof fn lemma_parse_enc(self, s: Seq<u8>, at: int) {
        let opened = head(MAJOR_MAP, MAPPING_FIELDS);
        let one = opened + enc_entry("perm_r"@, self.perm_r);
        let two = one + enc_entry("perm_w"@, self.perm_w);
        let three = two + enc_entry("perm_x"@, self.perm_x);
        let four = three + enc_entry("page_start"@, self.page_start);
        let five = four + enc_entry("page_end"@, self.page_end);
        let six = five + enc_entry("hint"@, Text(self.hint));
        lemma_next_entry(s, at, six, "pages"@, Array(self.pages));
        lemma_next_entry(s, at, five, "hint"@, Text(self.hint));
        lemma_next_entry(s, at, four, "page_end"@, self.page_end);
        lemma_next_entry(s, at, three, "page_start"@, self.page_start);
        lemma_next_entry(s, at, two, "perm_x"@, self.perm_x);
        lemma_next_entry(s, at, one, "perm_w"@, self.perm_w);
        lemma_next_entry(s, at, opened, "perm_r"@, self.perm_r);
        lemma_map_head(s, at, MAPPING_FIELDS);
    }

    proof fn lemma_parse_sound(s: Seq<u8>, at: int) {
        if let Some((mapping, end)) = Self::parse_at(s, at) {
            lemma_map_head_sound(s, at, MAPPING_FIELDS);
            let opened = head(MAJOR_MAP, MAPPING_FIELDS);
            lemma_next_entry_sound::<bool>(s, at, opened, "perm_r"@);
            let one = opened + enc_entry("perm_r"@, mapping.perm_r);
            lemma_next_entry_sound::<bool>(s, at, one, "perm_w"@);
            let two = one + enc_entry("perm_w"@, mapping.perm_w);
            lemma_next_entry_sound::<bool>(s, at, two, "perm_x"@);
            let three = two + enc_entry("perm_x"@, mapping.perm_x);
            lemma_next_entry_sound::<u64>(s, at, three, "page_start"@);
            let four = three + enc_entry("page_start"@, mapping.page_start);
            lemma_next_entry_sound::<u64>(s, at, four, "page_end"@);
            let five = four + enc_entry("page_end"@, mapping.page_end);
            lemma_next_entry_sound::<Text>(s, at, five, "hint"@);
            let six = five + enc_entry("hint"@, Text(mapping.hint));
            lemma_next_entry_sound::<Array<u32>>(s, at, six, "pages"@);
        }
    }
}

/// The fields of a pushed page.
pub struct PagePush {
    pub page_id: u32,
    pub page: Seq<u8>,
}

/// The fields of a pushed snapshot.
pub struct SnapshotPush {
    pub regs: SavedRegs,
    pub mappings: Seq<MappingView>,
}

impl Wire for PagePush {
    open spec fn wf(self) -> bool {
        Array(self.page).wf()
    }

    open spec fn enc(self) -> Seq<u8> {
        head(MAJOR_MAP, 2) + enc_entry("page_id"@, self.page_id) + enc_entry(
            "page"@,
            Array(self.page),
        )
    }

    open spec fn parse_at(s: Seq<u8>, at: int) -> Option<(PagePush, int)> {
        let page_id = next_entry::<u32>(s, map_head_at(s, at, 2), "page_id"@);
        let page = next_entry::<Array<u8>>(s, end_of(page_id), "page"@);
        match page {
            Some((page, end)) => Some((PagePush { page_id: page_id->Some_0.0, page: page.0 }, end)),
            None => None,
        }
    }

    proof fn lemma_parse_enc(self, s: Seq<u8>, at: int) {
        let opened = head(MAJOR_MAP, 2);
        let one = opened + enc_entry("page_id"@, self.page_id);
        lemma_next_entry(s, at, one, "page"@, Array(self.page));
        lemma_next_entry(s, at, opened, "page_id"@, self.page_id);
        lemma_map_head(s, at, 2);
    }

    proof fn lemma_parse_sound(s: Seq<u8>, at: int) {
        if let Some((push, end)) = Self::parse_at(s, at) {
            lemma_map_head_sound(s, at, 2);
            let opened = head(MAJOR_MAP, 2);
            lemma_next_entry_sound::<u32>(s, at, opened, "page_id"@);
            let one = opened + enc_entry("page_id"@, push.page_id);
            lemma_next_entry_sound::<Array<u8>>(s, at, one, "page"@);
        }
    }
}

impl Wire for SnapshotPush {
    open spec fn wf(self) -> bool {
        Array(self.mappings).wf()
    }

    open spec fn enc(self) -> Seq<u8> {
        head(MAJOR_MAP, 2) + enc_entry("regs"@, self.regs) + enc_entry(
            "mappings"@,
            Array(self.mappings),
        )
    }

    open spec fn parse_at(s: Seq<u8>, at: int) -> Option<(SnapshotPush, int)> {
        let regs = next_entry::<SavedRegs>(s, map_head_at(s, at, 2), "regs"@);
        let mappings = next_entry::<Array<MappingView>>(s, end_of(regs), "mappings"@);
        match mappings {
            Some((mappings, end)) => Some(
                (SnapshotPush { regs: regs->Some_0.0, mappings: mappings.0 }, end),
            ),
            None => None,
        }
    }

    proof fn lemma_parse_enc(self, s: Seq<u8>, at: int) {
        let opened = head(MAJOR_MAP, 2);
        let one = opened + enc_entry("regs"@, self.regs);
        lemma_next_entry(s, at, one, "mappings"@, Array(self.mappings));
        lemma_next_entry(s, at, opened, "regs"@, self.regs);
        lemma_map_head(s, at, 2);
    }

    proof fn lemma_parse_sound(s: Seq<u8>, at: int) {
        if let Some((push, end)) = Self::parse_at(s, at) {
            lemma_map_head_sound(s, at, 2);
            let opened = head(MAJOR_MAP, 2);
            lemma_next_entry_sound::<SavedRegs>(s, at, opened, "regs"@);
            let one = opened + enc_entry("regs"@, push.regs);
            lemma_next_entry_sound::<Array<MappingView>>(s, at, one, "mappings"@);
        }
    }
}

/// The first byte of the wire form of a short text of plain characters: the
/// major type of a text with the number of its characters.
pub proof fn lemma_short_text(name: Seq<char>)
    requires
        is_ascii_chars(name),
        name.len() < 24,
    ensures
        Text(name).enc().len() == 1 + name.len(),
        Text(name).enc()[0] == 0x60 + name.len(),
{
    is_ascii_chars_encode_utf8(name);
    lemma_head_len(MAJOR_TEXT, name.len() as u64);
}

/// The names of the two variants begin differently on the wire.
pub proof fn lemma_variant_names_differ()
    ensures
        Text("PushPage"@).enc()[0] != Text("PushSnapshot"@).enc()[0],
        Text("PushPage"@).enc().len() > 0,
        Text("PushSnapshot"@).enc().len() > 0,
{
    reveal_strlit("PushPage");
    reveal_strlit("PushSnapshot");
    lemma_short_text("PushPage"@);
    lemma_short_text("PushSnapshot"@);
}

impl Wire for AdminToNodeView {
    open spec fn wf(self) -> bool {
        match self {
            AdminToNodeView::PushPage { page_id, page } => PagePush { page_id, page }.wf(),
            AdminToNodeView::PushSnapshot { regs, mappings } => SnapshotPush {
                regs,
                mappings,
            }.wf(),
        }
    }

    open spec fn enc(self) -> Seq<u8> {
        match self {
            AdminToNodeView::PushPage { page_id, page } => head(MAJOR_MAP, 1) + enc_entry(
                "PushPage"@,
                PagePush { page_id, page },
            ),
            AdminToNodeView::PushSnapshot { regs, mappings } => head(MAJOR_MAP, 1) + enc_entry(
                "PushSnapshot"@,
                SnapshotPush { regs, mappings },
            ),
        }
    }

    open spec fn parse_at(s: Seq<u8>, at: int) -> Option<(AdminToNodeView, int)> {
        let start = map_head_at(s, at, 1);
        match next_entry::<PagePush>(s, start, "PushPage"@) {
            Some((push, end)) => Some(
                (AdminToNodeView::PushPage { page_id: push.page_id, page: push.page }, end),
            ),
            None => match next_entry::<SnapshotPush>(s, start, "PushSnapshot"@) {
                Some((push, end)) => Some(
                    (
                        AdminToNodeView::PushSnapshot { regs: push.regs, mappings: push.mappings },
                        end,
                    ),
                ),
                None => None,
            },
        }
    }

    proof fn lemma_parse_enc(self, s: Seq<u8>, at: int) {
        let opened = head(MAJOR_MAP, 1);
        match self {
            AdminToNodeView::PushPage { page_id, page } => {
                lemma_next_entry(s, at, opened, "PushPage"@, PagePush { page_id, page });
            },
            AdminToNodeView::PushSnapshot { regs, mappings } => {
                let push = SnapshotPush { regs, mappings };
                lemma_next_entry(s, at, opened, "PushSnapshot"@, push);
                lemma_variant_names_differ();
                let start = at + opened.len();
                let name = Text("PushSnapshot"@).enc();
                let other = Text("PushPage"@).enc();
                lemma_holds_split(s, at, opened, enc_entry("PushSnapshot"@, push));
                lemma_holds_split(s, start, name, push.enc());
                assert(s[start] == s.subrange(start, start + name.len())[0]);
                if holds_at(s, start, other) {
                    assert(s[start] == s.subrange(start, start + other.len())[0]);
                }
                assert(key_at(s, start, "PushPage"@) is None);
            },
        }
        lemma_map_head(s, at, 1);
    }

    proof fn lemma_parse_sound(s: Seq<u8>, at: int) {
        if let Some((message, end)) = Self::parse_at(s, at) {
            lemma_map_head_sound(s, at, 1);
            let opened = head(MAJOR_MAP, 1);
            lemma_next_entry_sound::<PagePush>(s, at, opened, "PushPage"@);
            lemma_next_entry_sound::<SnapshotPush>(s, at, opened, "PushSnapshot"@);
        }
    }
}

impl Wire for NodeToAdmin {
    open spec fn wf(self) -> bool {
        true
    }

    open spec fn enc(self) -> Seq<u8> {
        Text("Ready"@).enc()
    }

    open spec fn parse_at(s: Seq<u8>, at: int) -> Option<(NodeToAdmin, int)> {
        match key_at(s, at, "Ready"@) {
            Some(end) => Some((NodeToAdmin::Ready, end)),
            None => None,
        }
    }

    proof fn lemma_parse_enc(self, s: Seq<u8>, at: int) {
    }

    proof fn lemma_parse_sound(s: Seq<u8>, at: int) {
    }
}

} // verus!
