//! Nodes, handles, edges, and the small records around them.

use vstd::prelude::*;
use vstd::string::StringExecFns;
use crate::geometry::{
    HandlePosition, NodeExtent, Position, SelectionRect, Viewport, DEFAULT_NODE_HEIGHT,
    DEFAULT_NODE_WIDTH, side_midpoint, rect_meets,
};

verus! {

/// Whether edges start or end at a handle.
#[derive(Debug, Clone, Copy, PartialEq, Eq, Hash, Default, Structural)]
pub enum HandleKind {
    #[default]
    Source,
    Target,
}

/// A connection point on a node.
#[derive(Debug, PartialEq)]
pub struct NodeHandle {
    /// Unique within its node.
    pub id: String,
    pub kind: HandleKind,
    /// Side of the node the handle sits on.
    pub position: HandlePosition,
    /// Place along the side in thousandths (0 = top or left end); `None`
    /// puts the handle in the middle.
    pub offset: Option<u32>,
    pub connectable: bool,
    pub max_connections: Option<usize>,
    pub label: Option<String>,
}

pub(crate) fn clone_opt_string(o: &Option<String>) -> (r: Option<String>)
    ensures
        r == *o,
{
    match o {
        Some(s) => Some(s.clone()),
        None => None,
    }
}

impl Clone for NodeHandle {
    fn clone(&self) -> (r: Self)
        ensures
            r == *self,
    {
        NodeHandle {
            id: self.id.clone(),
            kind: self.kind,
            position: self.position,
            offset: self.offset,
            connectable: self.connectable,
            max_connections: self.max_connections,
            label: clone_opt_string(&self.label),
        }
    }
}

/// Handle offset along a side of length `len` at `pct` thousandths.
pub open spec fn fraction_of(len: int, pct: int) -> int {
    len * pct / 1000
}

/// Offset from a node's origin of a handle on `side` placed at `pct`
/// thousandths along it.
pub open spec fn side_fraction(side: HandlePosition, width: int, height: int, pct: int) -> (int, int) {
    match side {
        HandlePosition::Top => (fraction_of(width, pct), 0),
        HandlePosition::Bottom => (fraction_of(width, pct), height),
        HandlePosition::Left => (0, fraction_of(height, pct)),
        HandlePosition::Right => (width, fraction_of(height, pct)),
    }
}

impl NodeHandle {
    fn make(id: &str, kind: HandleKind, position: HandlePosition) -> (r: NodeHandle)
        ensures
            r.id@ == id@,
            r.kind == kind,
            r.position == position,
            r.offset.is_none(),
            r.connectable,
            r.max_connections.is_none(),
            r.label.is_none(),
    {
        NodeHandle {
            id: id.to_owned(),
            kind,
            position,
            offset: None,
            connectable: true,
            max_connections: None,
            label: None,
        }
    }

    /// A connectable source handle on the right side.
    pub fn source(id: &str) -> (r: NodeHandle)
        ensures
            r.id@ == id@,
            r.kind == HandleKind::Source,
            r.position == HandlePosition::Right,
            r.offset.is_none(),
            r.connectable,
            r.max_connections.is_none(),
            r.label.is_none(),
    {
        NodeHandle::make(id, HandleKind::Source, HandlePosition::Right)
    }

    /// A connectable target handle on the left side.
    pub fn target(id: &str) -> (r: NodeHandle)
        ensures
            r.id@ == id@,
            r.kind == HandleKind::Target,
            r.position == HandlePosition::Left,
            r.offset.is_none(),
            r.connectable,
            r.max_connections.is_none(),
            r.label.is_none(),
    {
        NodeHandle::make(id, HandleKind::Target, HandlePosition::Left)
    }

    pub fn with_position(self, position: HandlePosition) -> (r: NodeHandle)
        ensures
            r == (NodeHandle { position, ..self }),
    {
        NodeHandle { position, ..self }
    }

    /// Places the handle `offset` thousandths along its side, at most 1000.
    pub fn with_offset(self, offset: u32) -> (r: NodeHandle)
        ensures
            r == (NodeHandle { offset: Some(if offset > 1000 { 1000 } else { offset }), ..self }),
    {
        let pct = if offset > 1000 { 1000 } else { offset };
        NodeHandle { offset: Some(pct), ..self }
    }

    pub fn with_max_connections(self, max: usize) -> (r: NodeHandle)
        ensures
            r == (NodeHandle { max_connections: Some(max), ..self }),
    {
        NodeHandle { max_connections: Some(max), ..self }
    }

    pub fn with_label(self, label: &str) -> (r: NodeHandle)
        ensures
            r.label.is_some() && r.label.unwrap()@ == label@,
            r == (NodeHandle { label: r.label, ..self }),
    {
        NodeHandle { label: Some(label.to_owned()), ..self }
    }

    /// Offset of this handle from the origin of a node of the given size.
    pub open spec fn spec_offset(&self, width: int, height: int) -> (int, int) {
        match self.offset {
            Some(pct) => side_fraction(self.position, width, height, pct as int),
            None => side_midpoint(self.position, width, height),
        }
    }

    pub open spec fn absolute_fits(&self, node_pos: Position, width: int, height: int) -> bool {
        &&& crate::geometry::fits_i64(node_pos.x + self.spec_offset(width, height).0)
        &&& crate::geometry::fits_i64(node_pos.y + self.spec_offset(width, height).1)
    }

    /// Where the handle sits on a node at `node_pos` of the given size.
    pub fn absolute_position(&self, node_pos: Position, width: u32, height: u32) -> (r: Position)
        requires
            self.absolute_fits(node_pos, width as int, height as int),
        ensures
            r.x == node_pos.x + self.spec_offset(width as int, height as int).0,
            r.y == node_pos.y + self.spec_offset(width as int, height as int).1,
    {
        let off = match self.offset {
            Some(pct) => {
                proof {
                    assert(width * pct <= 0x1_0000_0000 * 0x1_0000_0000) by (nonlinear_arith)
                        requires width <= 0x1_0000_0000, pct <= 0x1_0000_0000;
                    assert(height * pct <= 0x1_0000_0000 * 0x1_0000_0000) by (nonlinear_arith)
                        requires height <= 0x1_0000_0000, pct <= 0x1_0000_0000;
                }
                let fw = (width as u128 * pct as u128 / 1000) as i64;
                let fh = (height as u128 * pct as u128 / 1000) as i64;
                match self.position {
                    HandlePosition::Top => Position::new(fw, 0),
                    HandlePosition::Bottom => Position::new(fw, height as i64),
                    HandlePosition::Left => Position::new(0, fh),
                    HandlePosition::Right => Position::new(width as i64, fh),
                }
            },
            None => self.position.offset(width, height),
        };
        Position::new(node_pos.x + off.x, node_pos.y + off.y)
    }
}

/// A node of the diagram.
#[derive(Debug, PartialEq)]
pub struct Node {
    /// Unique among the nodes of a diagram.
    pub id: String,
    pub position: Position,
    /// Declared width; `DEFAULT_NODE_WIDTH` when absent.
    pub width: Option<u32>,
    /// Declared height; `DEFAULT_NODE_HEIGHT` when absent.
    pub height: Option<u32>,
    /// Application data attached to the node.
    pub data: String,
    pub selected: bool,
    pub selectable: bool,
    pub draggable: bool,
    pub deletable: bool,
    pub connectable: bool,
    pub handles: Vec<NodeHandle>,
    /// Tag the presentation layer renders by.
    pub node_type: String,
    /// Layer; larger is drawn later.
    pub z_index: i64,
    pub class: String,
    /// Presentation hints as key-value pairs with unique keys.
    pub style: Vec<(String, String)>,
    /// Bounds the node's whole box is kept within when moved.
    pub extent: Option<NodeExtent>,
}

/// Width used for a node's box.
pub open spec fn width_or_default(w: Option<u32>) -> int {
    match w {
        Some(v) => v as int,
        None => DEFAULT_NODE_WIDTH as int,
    }
}

/// Height used for a node's box.
pub open spec fn height_or_default(h: Option<u32>) -> int {
    match h {
        Some(v) => v as int,
        None => DEFAULT_NODE_HEIGHT as int,
    }
}

pub(crate) fn clone_handles(hs: &Vec<NodeHandle>) -> (r: Vec<NodeHandle>)
    ensures
        r@ == hs@,
{
    let mut r: Vec<NodeHandle> = Vec::new();
    let mut i: usize = 0;
    while i < hs.len()
        invariant
            i <= hs@.len(),
            r@ == hs@.take(i as int),
        decreases hs@.len() - i,
    {
        r.push(hs[i].clone());
        proof {
            assert(hs@.take(i as int).push(hs@[i as int]) =~= hs@.take(i + 1));
        }
        i += 1;
    }
    assert(hs@.take(hs@.len() as int) =~= hs@);
    r
}

fn clone_style(st: &Vec<(String, String)>) -> (r: Vec<(String, String)>)
    ensures
        r@ == st@,
{
    let mut r: Vec<(String, String)> = Vec::new();
    let mut i: usize = 0;
    while i < st.len()
        invariant
            i <= st@.len(),
            r@ == st@.take(i as int),
        decreases st@.len() - i,
    {
        let (k, v) = (st[i].0.clone(), st[i].1.clone());
        r.push((k, v));
        proof {
            assert(st@.take(i as int).push(st@[i as int]) =~= st@.take(i + 1));
        }
        i += 1;
    }
    assert(st@.take(st@.len() as int) =~= st@);
    r
}

impl Clone for Node {
    fn clone(&self) -> (r: Self)
        ensures
            r.same(self),
    {
        Node {
            id: self.id.clone(),
            position: self.position,
            width: self.width,
            height: self.height,
            data: self.data.clone(),
            selected: self.selected,
            selectable: self.selectable,
            draggable: self.draggable,
            deletable: self.deletable,
            connectable: self.connectable,
            handles: clone_handles(&self.handles),
            node_type: self.node_type.clone(),
            z_index: self.z_index,
            class: self.class.clone(),
            style: clone_style(&self.style),
            extent: self.extent,
        }
    }
}

/// Handle `i` is the first in `hs` with the given id.
pub open spec fn first_handle(hs: Seq<NodeHandle>, id: Seq<char>, i: int) -> bool {
    &&& 0 <= i < hs.len()
    &&& hs[i].id@ == id
    &&& forall|j: int| 0 <= j < i ==> hs[j].id@ != id
}

pub open spec fn is_source(h: NodeHandle) -> bool {
    h.kind == HandleKind::Source
}

pub open spec fn is_target(h: NodeHandle) -> bool {
    h.kind == HandleKind::Target
}

impl Node {
    /// Equal in every field, the contents of the vectors compared.
    pub open spec fn same(&self, o: &Node) -> bool {
        &&& self.id == o.id
        &&& self.position == o.position
        &&& self.width == o.width
        &&& self.height == o.height
        &&& self.data == o.data
        &&& self.selected == o.selected
        &&& self.selectable == o.selectable
        &&& self.draggable == o.draggable
        &&& self.deletable == o.deletable
        &&& self.connectable == o.connectable
        &&& self.handles@ == o.handles@
        &&& self.node_type == o.node_type
        &&& self.z_index == o.z_index
        &&& self.class == o.class
        &&& self.style@ == o.style@
        &&& self.extent == o.extent
    }

    pub open spec fn spec_width(&self) -> int {
        width_or_default(self.width)
    }

    pub open spec fn spec_height(&self) -> int {
        height_or_default(self.height)
    }

    fn plain(id: &str, x: i64, y: i64, handles: Vec<NodeHandle>, connectable: bool) -> (r: Node)
        ensures
            r.id@ == id@,
            r.position == (Position { x, y }),
            r.width.is_none() && r.height.is_none(),
            r.data@ == Seq::<char>::empty(),
            !r.selected && r.selectable && r.draggable && r.deletable,
            r.connectable == connectable,
            r.handles == handles,
            r.node_type@ == "default"@,
            r.z_index == 0,
            r.class@ == Seq::<char>::empty(),
            r.style@ == Seq::<(String, String)>::empty(),
            r.extent.is_none(),
    {
        Node {
            id: id.to_owned(),
            position: Position { x, y },
            width: None,
            height: None,
            data: String::new(),
            selected: false,
            selectable: true,
            draggable: true,
            deletable: true,
            connectable,
            handles,
            node_type: String::from_str("default"),
            z_index: 0,
            class: String::new(),
            style: Vec::new(),
            extent: None,
        }
    }

    /// A node with a target handle on top and a source handle at the bottom.
    pub fn new(id: &str, x: i64, y: i64) -> (r: Node)
        ensures
            r.id@ == id@,
            r.position == (Position { x, y }),
            r.width.is_none() && r.height.is_none(),
            r.data@ == Seq::<char>::empty(),
            !r.selected && r.selectable && r.draggable && r.deletable && r.connectable,
            r.handles@.len() == 2,
            r.handles@[0].id@ == "target"@ && r.handles@[0].kind == HandleKind::Target,
            r.handles@[0].position == HandlePosition::Top,
            r.handles@[1].id@ == "source"@ && r.handles@[1].kind == HandleKind::Source,
            r.handles@[1].position == HandlePosition::Bottom,
            r.handles@[0].offset.is_none() && r.handles@[1].offset.is_none(),
            r.handles@[0].connectable && r.handles@[1].connectable,
            r.node_type@ == "default"@,
            r.z_index == 0,
            r.class@ == Seq::<char>::empty(),
            r.style@ == Seq::<(String, String)>::empty(),
            r.extent.is_none(),
    {
        let handles = vec![
            NodeHandle::target("target").with_position(HandlePosition::Top),
            NodeHandle::source("source").with_position(HandlePosition::Bottom),
        ];
        Node::plain(id, x, y, handles, true)
    }

    /// A node with no handles, which therefore cannot be connected.
    pub fn new_without_handles(id: &str, x: i64, y: i64) -> (r: Node)
        ensures
            r.id@ == id@,
            r.position == (Position { x, y }),
            r.width.is_none() && r.height.is_none(),
            r.data@ == Seq::<char>::empty(),
            !r.selected && r.selectable && r.draggable && r.deletable && !r.connectable,
            r.handles@.len() == 0,
            r.node_type@ == "default"@,
            r.z_index == 0,
            r.class@ == Seq::<char>::empty(),
            r.style@ == Seq::<(String, String)>::empty(),
            r.extent.is_none(),
    {
        Node::plain(id, x, y, Vec::new(), false)
    }

    pub fn with_data(self, data: String) -> (r: Node)
        ensures
            r == (Node { data, ..self }),
    {
        Node { data, ..self }
    }

    pub fn with_type(self, node_type: &str) -> (r: Node)
        ensures
            r.node_type@ == node_type@,
            r == (Node { node_type: r.node_type, ..self }),
    {
        Node { node_type: node_type.to_owned(), ..self }
    }

    pub fn with_draggable(self, draggable: bool) -> (r: Node)
        ensures
            r == (Node { draggable, ..self }),
    {
        Node { draggable, ..self }
    }

    pub fn with_connectable(self, connectable: bool) -> (r: Node)
        ensures
            r == (Node { connectable, ..self }),
    {
        Node { connectable, ..self }
    }

    pub fn with_selectable(self, selectable: bool) -> (r: Node)
        ensures
            r == (Node { selectable, ..self }),
    {
        Node { selectable, ..self }
    }

    pub fn with_deletable(self, deletable: bool) -> (r: Node)
        ensures
            r == (Node { deletable, ..self }),
    {
        Node { deletable, ..self }
    }

    pub fn with_z_index(self, z_index: i64) -> (r: Node)
        ensures
            r == (Node { z_index, ..self }),
    {
        Node { z_index, ..self }
    }

    pub fn with_extent(self, extent: NodeExtent) -> (r: Node)
        ensures
            r == (Node { extent: Some(extent), ..self }),
    {
        Node { extent: Some(extent), ..self }
    }

    pub fn with_dimensions(self, width: u32, height: u32) -> (r: Node)
        ensures
            r == (Node { width: Some(width), height: Some(height), ..self }),
    {
        Node { width: Some(width), height: Some(height), ..self }
    }

    pub fn with_class(self, class: &str) -> (r: Node)
        ensures
            r.class@ == class@,
            r == (Node { class: r.class, ..self }),
    {
        Node { class: class.to_owned(), ..self }
    }

    /// Sets the style entry `key` to `value`: entries of other keys keep
    /// their order and the new entry comes last.
    pub fn with_style(self, key: &str, value: &str) -> (r: Node)
        ensures
            r == (Node { style: r.style, ..self }),
            r.style@.len() > 0,
            r.style@.last().0@ == key@,
            r.style@.last().1@ == value@,
            r.style@.drop_last() == self.style@.filter(|e: (String, String)| e.0@ != key@),
    {
        let mut node = self;
        let k = key.to_owned();
        let ghost pred = |e: (String, String)| e.0@ != key@;
        let mut style: Vec<(String, String)> = Vec::new();
        let mut i: usize = 0;
        while i < node.style.len()
            invariant
                i <= node.style@.len(),
                node == self,
                k@ == key@,
                style@ == self.style@.take(i as int).filter(pred),
                pred == (|e: (String, String)| e.0@ != key@),
            decreases node.style@.len() - i,
        {
            if node.style[i].0 != k {
                let entry = (node.style[i].0.clone(), node.style[i].1.clone());
                style.push(entry);
            }
            proof {
                let t = self.style@.take(i + 1);
                assert(t.drop_last() =~= self.style@.take(i as int));
                assert(t.last() == self.style@[i as int]);
                reveal(Seq::filter);
                assert(t.filter(pred) == (if pred(t.last()) { t.drop_last().filter(pred).push(t.last()) } else { t.drop_last().filter(pred) }));
            }
            i += 1;
        }
        proof {
            assert(self.style@.take(self.style@.len() as int) =~= self.style@);
        }
        let ghost kept = style@;
        style.push((k, value.to_owned()));
        assert(style@.drop_last() =~= kept);
        node.style = style;
        node
    }

    /// Replaces the handles; the node is connectable when any remain.
    pub fn with_handles(self, handles: Vec<NodeHandle>) -> (r: Node)
        ensures
            r == (Node { handles, connectable: handles@.len() > 0, ..self }),
    {
        let connectable = handles.len() > 0;
        Node { handles, connectable, ..self }
    }

    /// Adds a handle and makes the node connectable.
    pub fn with_handle(self, handle: NodeHandle) -> (r: Node)
        ensures
            r.handles@ == self.handles@.push(handle),
            r == (Node { handles: r.handles, connectable: true, ..self }),
    {
        let mut node = self;
        node.handles.push(handle);
        node.connectable = true;
        node
    }

    /// Handle `handle_id` of this node, the first one where ids repeat.
    pub fn get_handle(&self, handle_id: &str) -> (r: Option<&NodeHandle>)
        ensures
            r.is_none() <==> (forall|i: int| 0 <= i < self.handles@.len() ==> self.handles@[i].id@ != handle_id@),
            r.is_some() ==> exists|i: int| first_handle(self.handles@, handle_id@, i) && *r.unwrap() == self.handles@[i],
    {
        let id = handle_id.to_owned();
        let mut i: usize = 0;
        while i < self.handles.len()
            invariant
                i <= self.handles@.len(),
                id@ == handle_id@,
                forall|j: int| 0 <= j < i ==> self.handles@[j].id@ != handle_id@,
            decreases self.handles@.len() - i,
        {
            if self.handles[i].id == id {
                return Some(&self.handles[i]);
            }
            i += 1;
        }
        None
    }

    /// The source handles, in order.
    pub fn source_handles(&self) -> (r: Vec<NodeHandle>)
        ensures
            r@ == self.handles@.filter(|h: NodeHandle| is_source(h)),
    {
        filter_handles(&self.handles, HandleKind::Source)
    }

    /// The target handles, in order.
    pub fn target_handles(&self) -> (r: Vec<NodeHandle>)
        ensures
            r@ == self.handles@.filter(|h: NodeHandle| is_target(h)),
    {
        filter_handles(&self.handles, HandleKind::Target)
    }

    pub open spec fn center_fits(&self) -> bool {
        &&& crate::geometry::fits_i64(self.position.x + self.spec_width() / 2)
        &&& crate::geometry::fits_i64(self.position.y + self.spec_height() / 2)
    }

    /// Middle of the node's box.
    pub fn center(&self) -> (r: Position)
        requires
            self.center_fits(),
        ensures
            r.x == self.position.x + self.spec_width() / 2,
            r.y == self.position.y + self.spec_height() / 2,
    {
        let w = self.width_or_default();
        let h = self.height_or_default();
        Position::new(self.position.x + w as i64 / 2, self.position.y + h as i64 / 2)
    }

    pub fn width_or_default(&self) -> (r: u32)
        ensures
            r == self.spec_width(),
    {
        match self.width {
            Some(w) => w,
            None => DEFAULT_NODE_WIDTH,
        }
    }

    pub fn height_or_default(&self) -> (r: u32)
        ensures
            r == self.spec_height(),
    {
        match self.height {
            Some(h) => h,
            None => DEFAULT_NODE_HEIGHT,
        }
    }

    pub open spec fn side_fits(&self, side: HandlePosition) -> bool {
        &&& crate::geometry::fits_i64(self.position.x + side_midpoint(side, self.spec_width(), self.spec_height()).0)
        &&& crate::geometry::fits_i64(self.position.y + side_midpoint(side, self.spec_width(), self.spec_height()).1)
    }

    /// Middle of the given side of the node's box.
    pub fn handle_position(&self, handle_pos: HandlePosition) -> (r: Position)
        requires
            self.side_fits(handle_pos),
        ensures
            r.x == self.position.x + side_midpoint(handle_pos, self.spec_width(), self.spec_height()).0,
            r.y == self.position.y + side_midpoint(handle_pos, self.spec_width(), self.spec_height()).1,
    {
        let off = handle_pos.offset(self.width_or_default(), self.height_or_default());
        Position::new(self.position.x + off.x, self.position.y + off.y)
    }

    pub open spec fn handles_fit(&self) -> bool {
        forall|i: int| 0 <= i < self.handles@.len()
            ==> #[trigger] self.handles@[i].absolute_fits(self.position, self.spec_width(), self.spec_height())
    }

    /// Where handle `handle_id` sits; nothing when the node has no such handle.
    pub fn handle_position_by_id(&self, handle_id: &str) -> (r: Option<Position>)
        requires
            self.handles_fit(),
        ensures
            r.is_none() <==> (forall|i: int| 0 <= i < self.handles@.len() ==> self.handles@[i].id@ != handle_id@),
            r.is_some() ==> exists|i: int| first_handle(self.handles@, handle_id@, i)
                && r.unwrap().x == self.position.x + self.handles@[i].spec_offset(self.spec_width(), self.spec_height()).0
                && r.unwrap().y == self.position.y + self.handles@[i].spec_offset(self.spec_width(), self.spec_height()).1,
    {
        let w = self.width_or_default();
        let h = self.height_or_default();
        match self.get_handle(handle_id) {
            Some(handle) => {
                proof {
                    let i = choose|i: int| first_handle(self.handles@, handle_id@, i) && *handle == self.handles@[i];
                    assert(self.handles@[i].absolute_fits(self.position, self.spec_width(), self.spec_height()));
                }
                Some(handle.absolute_position(self.position, w, h))
            },
            None => None,
        }
    }
}

fn filter_handles(hs: &Vec<NodeHandle>, kind: HandleKind) -> (r: Vec<NodeHandle>)
    ensures
        kind == HandleKind::Source ==> r@ == hs@.filter(|h: NodeHandle| is_source(h)),
        kind == HandleKind::Target ==> r@ == hs@.filter(|h: NodeHandle| is_target(h)),
{
    let ghost pred = |h: NodeHandle| h.kind == kind;
    let mut r: Vec<NodeHandle> = Vec::new();
    let mut i: usize = 0;
    while i < hs.len()
        invariant
            i <= hs@.len(),
            r@ == hs@.take(i as int).filter(pred),
            pred == (|h: NodeHandle| h.kind == kind),
        decreases hs@.len() - i,
    {
        if hs[i].kind == kind {
            r.push(hs[i].clone());
        }
        proof {
            let t = hs@.take(i + 1);
            assert(t.drop_last() =~= hs@.take(i as int));
            assert(t.last() == hs@[i as int]);
            reveal(Seq::filter);
            assert(t.filter(pred) == (if pred(t.last()) { t.drop_last().filter(pred).push(t.last()) } else { t.drop_last().filter(pred) }));
        }
        i += 1;
    }
    assert(hs@.take(hs@.len() as int) =~= hs@);
    proof {
        if kind == HandleKind::Source {
            assert(pred =~= (|h: NodeHandle| is_source(h)));
        } else {
            assert(pred =~= (|h: NodeHandle| is_target(h)));
        }
    }
    r
}

impl SelectionRect {
    /// Whether the node's box overlaps the rectangle.
    pub fn intersects_node(&self, node: &Node) -> (r: bool)
        ensures
            r == self.meets(node.position.x as int, node.position.y as int, node.spec_width(), node.spec_height()),
    {
        rect_meets(self, node.position.x, node.position.y, node.width_or_default() as u64, node.height_or_default() as u64)
    }
}


/// Decimal digit `d` as a character.
pub open spec fn digit_char(d: int) -> char {
    if d == 0 { '0' } else if d == 1 { '1' } else if d == 2 { '2' } else if d == 3 { '3' }
    else if d == 4 { '4' } else if d == 5 { '5' } else if d == 6 { '6' } else if d == 7 { '7' }
    else if d == 8 { '8' } else { '9' }
}

/// Decimal notation of `n`, without leading zeros.
pub open spec fn decimal(n: nat) -> Seq<char>
    decreases n,
{
    if n < 10 {
        seq![digit_char(n as int)]
    } else {
        decimal(n / 10).push(digit_char((n % 10) as int))
    }
}

fn digit_str(d: usize) -> (r: &'static str)
    requires
        d < 10,
    ensures
        r@ == seq![digit_char(d as int)],
{
    proof {
        reveal_strlit("0"); reveal_strlit("1"); reveal_strlit("2"); reveal_strlit("3");
        reveal_strlit("4"); reveal_strlit("5"); reveal_strlit("6"); reveal_strlit("7");
        reveal_strlit("8"); reveal_strlit("9");
    }
    let r = if d == 0 { "0" } else if d == 1 { "1" } else if d == 2 { "2" } else if d == 3 { "3" }
    else if d == 4 { "4" } else if d == 5 { "5" } else if d == 6 { "6" } else if d == 7 { "7" }
    else if d == 8 { "8" } else { "9" };
    assert(r@ =~= seq![digit_char(d as int)]);
    r
}

/// Appends the decimal notation of `n`.
pub(crate) fn push_decimal(s: &mut String, n: u64)
    ensures
        final(s)@ == old(s)@ + decimal(n as nat),
    decreases n,
{
    if n >= 10 {
        push_decimal(s, n / 10);
    }
    s.append(digit_str((n % 10) as usize));
    proof {
        if n >= 10 {
            assert(old(s)@ + decimal(n as nat) =~= old(s)@ + decimal((n / 10) as nat) + seq![digit_char((n % 10) as int)]);
        } else {
            assert(n % 10 == n);
        }
    }
}

/// Place in thousandths of handle `i` of `count` handles spread along a side.
pub open spec fn spread(i: int, count: int) -> int {
    1000 * (i + 1) / (count + 1)
}

/// Handle `h` is the `i`-th of `count` labelled handles on `side` whose ids
/// are `prefix` followed by the index.
pub open spec fn spread_handle(h: NodeHandle, prefix: Seq<char>, i: int, count: int, kind: HandleKind, side: HandlePosition, label: Seq<char>) -> bool {
    &&& h.id@ == prefix + decimal(i as nat)
    &&& h.kind == kind
    &&& h.position == side
    &&& h.offset == Some(spread(i, count) as u32)
    &&& h.connectable
    &&& h.max_connections.is_none()
    &&& h.label.is_some() && h.label.unwrap()@ == label
}

fn spread_handles(node: Node, labels: &[&str], prefix: &str, kind: HandleKind, side: HandlePosition) -> (r: Node)
    ensures
        r == (Node { handles: r.handles, connectable: true, ..node }),
        r.handles@.len() == node.handles@.len() + labels@.len(),
        r.handles@.take(node.handles@.len() as int) == node.handles@,
        forall|i: int| 0 <= i < labels@.len() ==> spread_handle(#[trigger] r.handles@[node.handles@.len() + i], prefix@, i, labels@.len() as int, kind, side, labels@[i]@),
{
    let mut node = node;
    let ghost start = node;
    let count = labels.len();
    let mut i: usize = 0;
    while i < count
        invariant
            i <= count == labels@.len(),
            node == (Node { handles: node.handles, ..start }),
            node.handles@.len() == start.handles@.len() + i,
            node.handles@.take(start.handles@.len() as int) == start.handles@,
            forall|j: int| 0 <= j < i ==> spread_handle(#[trigger] node.handles@[start.handles@.len() + j], prefix@, j, count as int, kind, side, labels@[j]@),
        decreases count - i,
    {
        let mut id = prefix.to_owned();
        push_decimal(&mut id, i as u64);
        proof {
            assert(1000 * (i + 1) <= 1000 * (count + 1)) by (nonlinear_arith) requires i < count;
            assert(1000 * (i + 1) / (count + 1) <= 1000) by (nonlinear_arith)
                requires 1000 * (i + 1) <= 1000 * (count + 1), count + 1 > 0;
            assert(1000 * (i + 1) < 1000 * 0x1_0000_0000_0000_0001) by (nonlinear_arith) requires i < count, count < 0x1_0000_0000_0000_0000;
        }
        let pct = (1000 * (i as u128 + 1) / (count as u128 + 1)) as u32;
        let handle = NodeHandle {
            id,
            kind,
            position: side,
            offset: Some(pct),
            connectable: true,
            max_connections: None,
            label: Some(labels[i].to_owned()),
        };
        let ghost before = node.handles@;
        node.handles.push(handle);
        proof {
            assert(node.handles@.take(start.handles@.len() as int) =~= before.take(start.handles@.len() as int));
            assert forall|j: int| 0 <= j < i + 1 implies spread_handle(#[trigger] node.handles@[start.handles@.len() + j], prefix@, j, count as int, kind, side, labels@[j]@) by {
                if j < i {
                    assert(node.handles@[start.handles@.len() + j] == before[start.handles@.len() + j]);
                }
            }
        }
        i += 1;
    }
    node.connectable = true;
    node
}

impl Node {
    /// Adds one labelled target handle per label on the left side, spread
    /// evenly, with ids `input-0`, `input-1`, ...
    pub fn with_inputs(self, labels: &[&str]) -> (r: Node)
        ensures
            r == (Node { handles: r.handles, connectable: true, ..self }),
            r.handles@.len() == self.handles@.len() + labels@.len(),
            r.handles@.take(self.handles@.len() as int) == self.handles@,
            forall|i: int| 0 <= i < labels@.len() ==> spread_handle(#[trigger] r.handles@[self.handles@.len() + i], "input-"@, i, labels@.len() as int, HandleKind::Target, HandlePosition::Left, labels@[i]@),
    {
        spread_handles(self, labels, "input-", HandleKind::Target, HandlePosition::Left)
    }

    /// Adds one labelled source handle per label on the right side, spread
    /// evenly, with ids `output-0`, `output-1`, ...
    pub fn with_outputs(self, labels: &[&str]) -> (r: Node)
        ensures
            r == (Node { handles: r.handles, connectable: true, ..self }),
            r.handles@.len() == self.handles@.len() + labels@.len(),
            r.handles@.take(self.handles@.len() as int) == self.handles@,
            forall|i: int| 0 <= i < labels@.len() ==> spread_handle(#[trigger] r.handles@[self.handles@.len() + i], "output-"@, i, labels@.len() as int, HandleKind::Source, HandlePosition::Right, labels@[i]@),
    {
        spread_handles(self, labels, "output-", HandleKind::Source, HandlePosition::Right)
    }
}


/// How an edge is drawn.
#[derive(Debug, Clone, Copy, PartialEq, Eq, Default, Structural)]
pub enum EdgeType {
    #[default]
    Bezier,
    Straight,
    Step,
    SmoothStep,
}

/// A directed edge between two nodes.
#[derive(Debug, PartialEq)]
pub struct Edge {
    /// Unique among the edges of a diagram.
    pub id: String,
    pub source: String,
    pub target: String,
    /// Side the edge leaves its source from, where no handle id is given.
    pub source_handle: HandlePosition,
    /// Side the edge enters its target at, where no handle id is given.
    pub target_handle: HandlePosition,
    /// Source handle; takes precedence over `source_handle`.
    pub source_handle_id: Option<String>,
    /// Target handle; takes precedence over `target_handle`.
    pub target_handle_id: Option<String>,
    pub edge_type: EdgeType,
    pub animated: bool,
    pub selected: bool,
    pub selectable: bool,
    pub deletable: bool,
    pub label: Option<String>,
    pub stroke: String,
    pub stroke_width: u32,
    pub class: String,
}

impl Clone for Edge {
    fn clone(&self) -> (r: Self)
        ensures
            r == *self,
    {
        Edge {
            id: self.id.clone(),
            source: self.source.clone(),
            target: self.target.clone(),
            source_handle: self.source_handle,
            target_handle: self.target_handle,
            source_handle_id: clone_opt_string(&self.source_handle_id),
            target_handle_id: clone_opt_string(&self.target_handle_id),
            edge_type: self.edge_type,
            animated: self.animated,
            selected: self.selected,
            selectable: self.selectable,
            deletable: self.deletable,
            label: clone_opt_string(&self.label),
            stroke: self.stroke.clone(),
            stroke_width: self.stroke_width,
            class: self.class.clone(),
        }
    }
}

/// Two edge ends attach at the same place: the same handle id where both
/// name one, else the same side where neither does.
pub open spec fn same_end(side_a: HandlePosition, id_a: Option<String>, side_b: HandlePosition, id_b: Option<String>) -> bool {
    match (id_a, id_b) {
        (Some(a), Some(b)) => a@ == b@,
        (None, None) => side_a == side_b,
        _ => false,
    }
}

/// Two connections with the same endpoints, compared as `same_end` does.
pub open spec fn same_link(
    source_a: Seq<char>, target_a: Seq<char>, sside_a: HandlePosition, sid_a: Option<String>, tside_a: HandlePosition, tid_a: Option<String>,
    source_b: Seq<char>, target_b: Seq<char>, sside_b: HandlePosition, sid_b: Option<String>, tside_b: HandlePosition, tid_b: Option<String>,
) -> bool {
    &&& source_a == source_b
    &&& target_a == target_b
    &&& same_end(sside_a, sid_a, sside_b, sid_b)
    &&& same_end(tside_a, tid_a, tside_b, tid_b)
}

pub(crate) fn same_end_exec(side_a: HandlePosition, id_a: &Option<String>, side_b: HandlePosition, id_b: &Option<String>) -> (r: bool)
    ensures
        r == same_end(side_a, *id_a, side_b, *id_b),
{
    match (id_a, id_b) {
        (Some(a), Some(b)) => *a == *b,
        (None, None) => side_a == side_b,
        _ => false,
    }
}

pub(crate) fn default_stroke() -> (r: String)
    ensures
        r@ == "#b1b1b7"@,
{
    String::from_str("#b1b1b7")
}

impl Edge {
    /// Edge `o` joins the same endpoints as this one.
    pub open spec fn links_like(&self, o: &Edge) -> bool {
        same_link(
            self.source@, self.target@, self.source_handle, self.source_handle_id, self.target_handle, self.target_handle_id,
            o.source@, o.target@, o.source_handle, o.source_handle_id, o.target_handle, o.target_handle_id,
        )
    }

    pub(crate) fn links_like_exec(&self, o: &Edge) -> (r: bool)
        ensures
            r == self.links_like(o),
    {
        self.source == o.source && self.target == o.target
            && same_end_exec(self.source_handle, &self.source_handle_id, o.source_handle, &o.source_handle_id)
            && same_end_exec(self.target_handle, &self.target_handle_id, o.target_handle, &o.target_handle_id)
    }

    /// The edge touches the node `id`.
    pub open spec fn touches(&self, id: Seq<char>) -> bool {
        self.source@ == id || self.target@ == id
    }

    /// An edge from the bottom of `source` to the top of `target`, drawn as
    /// a bezier curve.
    pub fn new(id: &str, source: &str, target: &str) -> (r: Edge)
        ensures
            r.id@ == id@ && r.source@ == source@ && r.target@ == target@,
            r.source_handle == HandlePosition::Bottom,
            r.target_handle == HandlePosition::Top,
            r.source_handle_id.is_none() && r.target_handle_id.is_none(),
            r.edge_type == EdgeType::Bezier,
            !r.animated && !r.selected && r.selectable && r.deletable,
            r.label.is_none(),
            r.stroke@ == "#b1b1b7"@,
            r.stroke_width == 2,
            r.class@ == Seq::<char>::empty(),
    {
        Edge {
            id: id.to_owned(),
            source: source.to_owned(),
            target: target.to_owned(),
            source_handle: HandlePosition::Bottom,
            target_handle: HandlePosition::Top,
            source_handle_id: None,
            target_handle_id: None,
            edge_type: EdgeType::Bezier,
            animated: false,
            selected: false,
            selectable: true,
            deletable: true,
            label: None,
            stroke: default_stroke(),
            stroke_width: 2,
            class: String::new(),
        }
    }

    /// An edge between two named handles; the sides, right to left, are
    /// only a fallback.
    pub fn new_with_handles(id: &str, source: &str, source_handle: &str, target: &str, target_handle: &str) -> (r: Edge)
        ensures
            r.id@ == id@ && r.source@ == source@ && r.target@ == target@,
            r.source_handle == HandlePosition::Right,
            r.target_handle == HandlePosition::Left,
            r.source_handle_id.is_some() && r.source_handle_id.unwrap()@ == source_handle@,
            r.target_handle_id.is_some() && r.target_handle_id.unwrap()@ == target_handle@,
            r.edge_type == EdgeType::Bezier,
            !r.animated && !r.selected && r.selectable && r.deletable,
            r.label.is_none(),
            r.stroke@ == "#b1b1b7"@,
            r.stroke_width == 2,
            r.class@ == Seq::<char>::empty(),
    {
        let e = Edge::new(id, source, target);
        Edge {
            source_handle: HandlePosition::Right,
            target_handle: HandlePosition::Left,
            source_handle_id: Some(source_handle.to_owned()),
            target_handle_id: Some(target_handle.to_owned()),
            ..e
        }
    }

    pub fn with_selectable(self, selectable: bool) -> (r: Edge)
        ensures
            r == (Edge { selectable, ..self }),
    {
        Edge { selectable, ..self }
    }

    pub fn with_deletable(self, deletable: bool) -> (r: Edge)
        ensures
            r == (Edge { deletable, ..self }),
    {
        Edge { deletable, ..self }
    }

    pub fn with_source_handle(self, position: HandlePosition) -> (r: Edge)
        ensures
            r == (Edge { source_handle: position, ..self }),
    {
        Edge { source_handle: position, ..self }
    }

    pub fn with_target_handle(self, position: HandlePosition) -> (r: Edge)
        ensures
            r == (Edge { target_handle: position, ..self }),
    {
        Edge { target_handle: position, ..self }
    }

    pub fn with_source_handle_id(self, handle_id: &str) -> (r: Edge)
        ensures
            r.source_handle_id.is_some() && r.source_handle_id.unwrap()@ == handle_id@,
            r == (Edge { source_handle_id: r.source_handle_id, ..self }),
    {
        Edge { source_handle_id: Some(handle_id.to_owned()), ..self }
    }

    pub fn with_target_handle_id(self, handle_id: &str) -> (r: Edge)
        ensures
            r.target_handle_id.is_some() && r.target_handle_id.unwrap()@ == handle_id@,
            r == (Edge { target_handle_id: r.target_handle_id, ..self }),
    {
        Edge { target_handle_id: Some(handle_id.to_owned()), ..self }
    }

    pub fn with_type(self, edge_type: EdgeType) -> (r: Edge)
        ensures
            r == (Edge { edge_type, ..self }),
    {
        Edge { edge_type, ..self }
    }

    pub fn with_animated(self, animated: bool) -> (r: Edge)
        ensures
            r == (Edge { animated, ..self }),
    {
        Edge { animated, ..self }
    }

    pub fn with_label(self, label: &str) -> (r: Edge)
        ensures
            r.label.is_some() && r.label.unwrap()@ == label@,
            r == (Edge { label: r.label, ..self }),
    {
        Edge { label: Some(label.to_owned()), ..self }
    }

    pub fn with_stroke(self, stroke: &str) -> (r: Edge)
        ensures
            r.stroke@ == stroke@,
            r == (Edge { stroke: r.stroke, ..self }),
    {
        Edge { stroke: stroke.to_owned(), ..self }
    }

    pub fn with_stroke_width(self, width: u32) -> (r: Edge)
        ensures
            r == (Edge { stroke_width: width, ..self }),
    {
        Edge { stroke_width: width, ..self }
    }

    pub fn with_class(self, class: &str) -> (r: Edge)
        ensures
            r.class@ == class@,
            r == (Edge { class: r.class, ..self }),
    {
        Edge { class: class.to_owned(), ..self }
    }
}

/// A connection being drawn from a source handle toward the pointer.
#[derive(Debug, PartialEq)]
pub struct Connection {
    pub source: String,
    pub source_handle: HandlePosition,
    pub source_handle_id: Option<String>,
    /// Pointer position in diagram space.
    pub target_position: Position,
}

/// Signals the engine can be asked to emit after a change.
#[derive(Debug, PartialEq)]
pub enum FlowEvent {
    NodeClick(String),
    NodeDoubleClick(String),
    NodeDragStart(String),
    NodeDrag { id: String, position: Position },
    NodeDragEnd(String),
    EdgeClick(String),
    ConnectStart { node_id: String, handle_position: HandlePosition },
    Connect {
        source: String,
        source_handle: HandlePosition,
        target: String,
        target_handle: HandlePosition,
    },
    PaneClick(Position),
    SelectionChange { nodes: Vec<String>, edges: Vec<String> },
    ViewportChange(Viewport),
    NodesDelete(Vec<String>),
    EdgesDelete(Vec<String>),
}

/// Outcome of checking a connection before it is made.
#[derive(Debug, PartialEq)]
pub struct ConnectionValidation {
    pub is_valid: bool,
    /// Why the connection was refused.
    pub message: Option<String>,
}

impl ConnectionValidation {
    pub fn valid() -> (r: ConnectionValidation)
        ensures
            r.is_valid,
            r.message.is_none(),
    {
        ConnectionValidation { is_valid: true, message: None }
    }

    pub fn invalid(message: &str) -> (r: ConnectionValidation)
        ensures
            !r.is_valid,
            r.message.is_some() && r.message.unwrap()@ == message@,
    {
        ConnectionValidation { is_valid: false, message: Some(message.to_owned()) }
    }
}

/// A connection proposed between two nodes.
#[derive(Debug, PartialEq)]
pub struct PendingConnection {
    pub source: String,
    pub source_handle: HandlePosition,
    pub source_handle_id: Option<String>,
    pub target: String,
    pub target_handle: HandlePosition,
    pub target_handle_id: Option<String>,
}

/// Shape drawn at an edge's end.
#[derive(Debug, Clone, Copy, PartialEq, Eq, Default, Structural)]
pub enum MarkerType {
    #[default]
    Arrow,
    ArrowClosed,
    Blank,
}

/// Marker drawn at an edge's end.
#[derive(Debug, PartialEq)]
pub struct EdgeMarker {
    pub marker_type: MarkerType,
    /// Colour; the edge's stroke when absent.
    pub color: Option<String>,
    pub width: u32,
    pub height: u32,
}

impl Default for EdgeMarker {
    fn default() -> (r: EdgeMarker)
        ensures
            r == (EdgeMarker { marker_type: MarkerType::Arrow, color: None, width: 12, height: 12 }),
    {
        EdgeMarker { marker_type: MarkerType::Arrow, color: None, width: 12, height: 12 }
    }
}

/// Modifier keys held during an input event.
#[derive(Debug, Clone, Copy, PartialEq, Eq, Default, Structural)]
pub struct KeyboardModifiers {
    pub shift: bool,
    pub ctrl: bool,
    pub alt: bool,
    pub meta: bool,
}

impl KeyboardModifiers {
    pub fn from_keyboard_event(shift: bool, ctrl: bool, alt: bool, meta: bool) -> (r: KeyboardModifiers)
        ensures
            r == (KeyboardModifiers { shift, ctrl, alt, meta }),
    {
        KeyboardModifiers { shift, ctrl, alt, meta }
    }
}

/// Which interactions the presentation layer offers.
#[derive(Debug, Clone, Copy, PartialEq, Eq, Structural)]
pub struct InteractivityConfig {
    pub nodes_draggable: bool,
    pub nodes_connectable: bool,
    pub nodes_selectable: bool,
    pub edges_selectable: bool,
    pub elements_deletable: bool,
    pub pan_on_drag: bool,
    pub pan_on_scroll: bool,
    pub zoom_on_scroll: bool,
    pub zoom_on_pinch: bool,
    pub zoom_on_double_click: bool,
    pub selection_on_drag: bool,
}

impl Default for InteractivityConfig {
    fn default() -> (r: InteractivityConfig)
        ensures
            r == (InteractivityConfig {
                nodes_draggable: true,
                nodes_connectable: true,
                nodes_selectable: true,
                edges_selectable: true,
                elements_deletable: true,
                pan_on_drag: true,
                pan_on_scroll: false,
                zoom_on_scroll: true,
                zoom_on_pinch: true,
                zoom_on_double_click: true,
                selection_on_drag: false,
            }),
    {
        InteractivityConfig {
            nodes_draggable: true,
            nodes_connectable: true,
            nodes_selectable: true,
            edges_selectable: true,
            elements_deletable: true,
            pan_on_drag: true,
            pan_on_scroll: false,
            zoom_on_scroll: true,
            zoom_on_pinch: true,
            zoom_on_double_click: true,
            selection_on_drag: false,
        }
    }
}

/// Look of edges made by completing a connection.
#[derive(Debug, PartialEq)]
pub struct DefaultEdgeOptions {
    pub edge_type: EdgeType,
    pub stroke: String,
    pub stroke_width: u32,
    pub animated: bool,
}

impl Default for DefaultEdgeOptions {
    fn default() -> (r: DefaultEdgeOptions)
        ensures
            r.edge_type == EdgeType::Bezier,
            r.stroke@ == "#b1b1b7"@,
            r.stroke_width == 2,
            !r.animated,
    {
        DefaultEdgeOptions { edge_type: EdgeType::Bezier, stroke: default_stroke(), stroke_width: 2, animated: false }
    }
}

/// Copied nodes and the edges between them.
#[derive(Debug, PartialEq)]
pub struct ClipboardData {
    pub nodes: Vec<Node>,
    pub edges: Vec<Edge>,
}

impl Default for ClipboardData {
    fn default() -> (r: ClipboardData)
        ensures
            r.nodes@.len() == 0,
            r.edges@.len() == 0,
    {
        ClipboardData { nodes: Vec::new(), edges: Vec::new() }
    }
}

} // verus!
