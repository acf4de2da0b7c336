//! The two message vocabularies.

use crate::userspace::SavedRegs;
use vstd::prelude::*;

verus! {

/// The size of a page in bytes.
pub const PAGE_SIZE: usize = 4096;

/// One contiguous region of virtual memory with uniform permissions, backed
/// by pages that are named by their identifiers, in address order. Nothing
/// ties the number of pages to the size of the range: a mapping is installed
/// with the pages that it names, and [`Mapping::covers_pages`] tells whether
/// they fill the range.
#[derive(Clone, Debug, PartialEq, Eq)]
pub struct Mapping {
    pub perm_r: bool,
    pub perm_w: bool,
    pub perm_x: bool,
    /// The first address of the region.
    pub page_start: u64,
    /// The last address of the region (inclusive).
    pub page_end: u64,
    /// A description for people; it has no effect.
    pub hint: String,
    pub pages: Vec<u32>,
}

/// The mathematical value of a [`Mapping`].
pub struct MappingView {
    pub perm_r: bool,
    pub perm_w: bool,
    pub perm_x: bool,
    pub page_start: u64,
    pub page_end: u64,
    pub hint: Seq<char>,
    pub pages: Seq<u32>,
}

impl View for Mapping {
    type V = MappingView;

    open spec fn view(&self) -> MappingView {
        MappingView {
            perm_r: self.perm_r,
            perm_w: self.perm_w,
            perm_x: self.perm_x,
            page_start: self.page_start,
            page_end: self.page_end,
            hint: self.hint@,
            pages: self.pages@,
        }
    }
}

impl Mapping {
    /// Whether the pages of the mapping fill its range exactly: the range is
    /// not empty, it is not the whole address space, and it holds as many
    /// bytes as the pages have.
    pub open spec fn spec_covers_pages(view: MappingView) -> bool {
        &&& view.page_start <= view.page_end
        &&& view.page_end - view.page_start < u64::MAX
        &&& view.page_end - view.page_start + 1 == view.pages.len() * PAGE_SIZE
    }

    /// Whether the pages of the mapping fill its range exactly.
    pub fn covers_pages(&self) -> (r: bool)
        ensures
            r == Self::spec_covers_pages(self@),
    {
        if self.page_start > self.page_end {
            return false;
        }
        let span = self.page_end - self.page_start;
        let count = self.pages.len();
        if span == u64::MAX || count == 0 || count as u64 > 0xf_ffff_ffff_ffff {
            return false;
        }
        span + 1 == count as u64 * 4096
    }
}

/// The values of a sequence of mappings, in the same order.
pub open spec fn mappings_view(mappings: Seq<Mapping>) -> Seq<MappingView> {
    Seq::new(mappings.len(), |i: int| mappings[i]@)
}

/// What the administrator sends to the node.
#[derive(Clone, Debug, PartialEq, Eq)]
pub enum AdminToNode {
    /// The content of one page, under the identifier the sender chose.
    PushPage { page_id: u32, page: Vec<u8> },
    /// The registers and the memory layout of the frozen process. It ends the
    /// transfer.
    PushSnapshot { regs: SavedRegs, mappings: Vec<Mapping> },
}

/// The mathematical value of an [`AdminToNode`] message.
pub enum AdminToNodeView {
    PushPage { page_id: u32, page: Seq<u8> },
    PushSnapshot { regs: SavedRegs, mappings: Seq<MappingView> },
}

impl View for AdminToNode {
    type V = AdminToNodeView;

    open spec fn view(&self) -> AdminToNodeView {
        match *self {
            AdminToNode::PushPage { page_id, page } => AdminToNodeView::PushPage {
                page_id,
                page: page@,
            },
            AdminToNode::PushSnapshot { regs, mappings } => AdminToNodeView::PushSnapshot {
                regs,
                mappings: mappings_view(mappings@),
            },
        }
    }
}

/// What the node sends to the administrator.
#[derive(Clone, Copy, Debug, PartialEq, Eq, Structural)]
pub enum NodeToAdmin {
    /// The node is ready to receive pages.
    Ready,
}

} // verus!
