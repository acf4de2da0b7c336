use kernel::protocol::decode::decode_admin;
use kernel::protocol::encode::{encode_admin, encode_node};
use kernel::protocol::message::{AdminToNode, Mapping, NodeToAdmin};
use kernel::userspace::SavedRegs;
use serde::ser::{Serialize, SerializeStruct, SerializeStructVariant, Serializer};

// The messages as a serializer sees them: a struct is written field by field
// in the order of its declaration, an enum variant under its name.

struct WireRegs(SavedRegs);

struct WireMapping<'a>(&'a Mapping);

struct WireMappings<'a>(&'a [Mapping]);

struct WireAdmin<'a>(&'a AdminToNode);

struct WireNode;

impl Serialize for WireRegs {
    fn serialize<S: Serializer>(&self, serializer: S) -> Result<S::Ok, S::Error> {
        let r = &self.0;
        let mut s = serializer.serialize_struct("SavedRegs", 18)?;
        s.serialize_field("rax", &r.rax)?;
        s.serialize_field("rbx", &r.rbx)?;
        s.serialize_field("rcx", &r.rcx)?;
        s.serialize_field("rdx", &r.rdx)?;
        s.serialize_field("rdi", &r.rdi)?;
        s.serialize_field("rsi", &r.rsi)?;
        s.serialize_field("rbp", &r.rbp)?;
        s.serialize_field("r8", &r.r8)?;
        s.serialize_field("r9", &r.r9)?;
        s.serialize_field("r10", &r.r10)?;
        s.serialize_field("r11", &r.r11)?;
        s.serialize_field("r12", &r.r12)?;
        s.serialize_field("r13", &r.r13)?;
        s.serialize_field("r14", &r.r14)?;
        s.serialize_field("r15", &r.r15)?;
        s.serialize_field("rflags", &r.rflags)?;
        s.serialize_field("rip", &r.rip)?;
        s.serialize_field("rsp", &r.rsp)?;
        s.end()
    }
}

impl<'a> Serialize for WireMapping<'a> {
    fn serialize<S: Serializer>(&self, serializer: S) -> Result<S::Ok, S::Error> {
        let m = self.0;
        let mut s = serializer.serialize_struct("Mapping", 7)?;
        s.serialize_field("perm_r", &m.perm_r)?;
        s.serialize_field("perm_w", &m.perm_w)?;
        s.serialize_field("perm_x", &m.perm_x)?;
        s.serialize_field("page_start", &m.page_start)?;
        s.serialize_field("page_end", &m.page_end)?;
        s.serialize_field("hint", &m.hint)?;
        s.serialize_field("pages", &m.pages)?;
        s.end()
    }
}

impl<'a> Serialize for WireMappings<'a> {
    fn serialize<S: Serializer>(&self, serializer: S) -> Result<S::Ok, S::Error> {
        serializer.collect_seq(self.0.iter().map(WireMapping))
    }
}

impl<'a> Serialize for WireAdmin<'a> {
    fn serialize<S: Serializer>(&self, serializer: S) -> Result<S::Ok, S::Error> {
        match self.0 {
            AdminToNode::PushPage { page_id, page } => {
                let mut s = serializer.serialize_struct_variant("AdminToNode", 0, "PushPage", 2)?;
                s.serialize_field("page_id", page_id)?;
                s.serialize_field("page", page)?;
                s.end()
            }
            AdminToNode::PushSnapshot { regs, mappings } => {
                let mut s =
                    serializer.serialize_struct_variant("AdminToNode", 1, "PushSnapshot", 2)?;
                s.serialize_field("regs", &WireRegs(*regs))?;
                s.serialize_field("mappings", &WireMappings(mappings))?;
                s.end()
            }
        }
    }
}

impl Serialize for WireNode {
    fn serialize<S: Serializer>(&self, serializer: S) -> Result<S::Ok, S::Error> {
        serializer.serialize_unit_variant("NodeToAdmin", 0, "Ready")
    }
}

fn messages() -> Vec<AdminToNode> {
    let mut page = vec![0u8; 4096];
    for (i, b) in page.iter_mut().enumerate() {
        *b = (i * 7 % 256) as u8;
    }
    let regs = SavedRegs {
        rax: 0,
        rbx: 23,
        rcx: 24,
        rdx: 255,
        rdi: 256,
        rsi: 65535,
        rbp: 65536,
        r8: 0xffff_ffff,
        r9: 0x1_0000_0000,
        r10: u64::MAX,
        r11: 0x246,
        r12: 12,
        r13: 13,
        r14: 14,
        r15: 15,
        rflags: 0x202,
        rip: 0x40_1000,
        rsp: 0x7fff_ffff_f000,
    };
    let mapping = Mapping {
        perm_r: true,
        perm_w: false,
        perm_x: true,
        page_start: 0x1000,
        page_end: 0x2fff,
        hint: String::from("/usr/lib/libf\u{fc}r.so \u{1f600}"),
        pages: vec![0, 23, 24, 255, 256, 65535, 65536, u32::MAX],
    };
    let bare = Mapping { hint: String::new(), pages: vec![], perm_w: true, ..mapping.clone() };
    vec![
        AdminToNode::PushPage { page_id: 0, page: vec![] },
        AdminToNode::PushPage { page_id: 77, page },
        AdminToNode::PushPage { page_id: u32::MAX, page: vec![0xff; 300] },
        AdminToNode::PushSnapshot { regs: SavedRegs::default(), mappings: vec![] },
        AdminToNode::PushSnapshot { regs, mappings: vec![mapping, bare] },
    ]
}

#[test]
fn admin_messages_are_written_as_the_cbor_crate_writes_them() {
    for message in messages() {
        let theirs = serde_cbor::to_vec(&WireAdmin(&message)).unwrap();
        assert_eq!(encode_admin(&message), theirs);
    }
}

#[test]
fn what_the_cbor_crate_writes_is_read_back() {
    for message in messages() {
        let theirs = serde_cbor::to_vec(&WireAdmin(&message)).unwrap();
        assert_eq!(decode_admin(&theirs), Ok(message));
    }
}

#[test]
fn node_messages_are_written_as_the_cbor_crate_writes_them() {
    assert_eq!(encode_node(NodeToAdmin::Ready), serde_cbor::to_vec(&WireNode).unwrap());
}
