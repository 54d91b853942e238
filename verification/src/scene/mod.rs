//! The semantic scene vocabulary shared by the shell boundary: node identities, roles, actions,
//! structural state, focus movement, and the layout-constraint enumerations. A scene describes
//! meaning, never pixels.
pub mod tree;

use vstd::prelude::*;
use crate::text::string_of;
use vstd::string::StrSliceExecFns;

verus! {

/// Stable identity for a semantic node across scene revisions. Never empty.
#[derive(Clone, Debug, Eq, Hash, Ord, PartialEq, PartialOrd)]
pub struct NodeId(String);

impl NodeId {
    pub closed spec fn view(&self) -> Seq<char> {
        self.0@
    }

    /// Creates an identifier. Empty identifiers are rejected.
    pub fn new(value: &str) -> (r: Result<NodeId, SceneError>)
        ensures
            value@.len() == 0 ==> r matches Err(SceneError::EmptyNodeId),
            value@.len() > 0 ==> (r matches Ok(id) && id.view() == value@),
    {
        let s = string_of(value);
        if s.as_str().unicode_len() == 0 {
            return Err(SceneError::EmptyNodeId);
        }
        Ok(NodeId(s))
    }

    /// The identifier's string representation.
    pub fn as_str(&self) -> (r: &str)
        ensures
            r@ == self.view(),
    {
        self.0.as_str()
    }

    /// An equal identifier, owned.
    pub fn copy(&self) -> (r: NodeId)
        ensures
            r.view() == self.view(),
    {
        NodeId(string_of(self.0.as_str()))
    }
}

/// A node's accessibility role.
#[derive(Clone, Copy, Debug, Eq, PartialEq, Structural)]
pub enum Role {
    Group,
    Heading,
    Text,
    Button,
    Toggle,
    Slider,
    List,
    ListItem,
    Dialog,
}

/// A semantic action exposed by a focusable node.
#[derive(Clone, Debug, Eq, PartialEq)]
pub enum NodeAction {
    Activate,
    Back,
    SetValue(i32),
    Custom(String),
}

impl NodeAction {
    /// An equal action, owned.
    pub fn copy(&self) -> (r: NodeAction)
        ensures
            r == *self,
    {
        match self {
            NodeAction::Activate => NodeAction::Activate,
            NodeAction::Back => NodeAction::Back,
            NodeAction::SetValue(v) => NodeAction::SetValue(*v),
            NodeAction::Custom(s) => NodeAction::Custom(s.clone()),
        }
    }
}

/// Structural state; visual emphasis is derived from these bits by a theme.
#[derive(Clone, Copy, Debug, Default, Eq, PartialEq, Structural)]
pub struct NodeState {
    pub focused: bool,
    pub disabled: bool,
    pub selected: bool,
    pub checked: bool,
    pub expanded: bool,
}

/// Surface orientation supplied by the frame host.
#[derive(Clone, Copy, Debug, Eq, PartialEq, Structural)]
pub enum Orientation {
    Landscape,
    Portrait,
    LandscapeFlipped,
    PortraitFlipped,
}

/// A directional focus move.
#[derive(Clone, Copy, Debug, Eq, PartialEq, Structural)]
pub enum AxisMove {
    Left,
    Right,
    Up,
    Down,
}

/// A controlled structural-state transition. Focus itself is owned by the scene.
#[derive(Clone, Copy, Debug, Eq, PartialEq, Structural)]
pub enum StateTransition {
    Disabled(bool),
    Selected(bool),
    Checked(bool),
    Expanded(bool),
}

/// Why a scene could not be built or changed.
#[derive(Clone, Debug, Eq, PartialEq)]
pub enum SceneError {
    EmptyNodeId,
    DuplicateNodeId(NodeId),
    DefaultFocusMissing(NodeId),
    DefaultFocusNotFocusable(NodeId),
    NodeMissing(NodeId),
    CannotDisableFocused(NodeId),
}

/// How a node participates in layout.
#[derive(Clone, Copy, Debug, Default, Eq, PartialEq, Structural)]
pub enum Display {
    #[default]
    Flex,
    Grid,
    /// The node generates no box (CSS `display: none`).
    DisplayNone,
}

#[derive(Clone, Copy, Debug, Default, Eq, PartialEq, Structural)]
pub enum FlexDirection {
    #[default]
    Row,
    Column,
    RowReverse,
    ColumnReverse,
}

#[derive(Clone, Copy, Debug, Eq, PartialEq, Structural)]
pub enum AlignItems {
    Start,
    End,
    Center,
    Stretch,
    Baseline,
}

#[derive(Clone, Copy, Debug, Eq, PartialEq, Structural)]
pub enum JustifyContent {
    Start,
    End,
    Center,
    SpaceBetween,
    SpaceAround,
    SpaceEvenly,
}

#[derive(Clone, Copy, Debug, Default, Eq, PartialEq, Structural)]
pub enum Overflow {
    #[default]
    Visible,
    Hidden,
}

#[derive(Clone, Copy, Debug, Default, Eq, PartialEq, Structural)]
pub enum BoxSizing {
    #[default]
    BorderBox,
    ContentBox,
}

#[derive(Clone, Copy, Debug, Default, Eq, PartialEq, Structural)]
pub enum Position {
    #[default]
    Relative,
    Absolute,
}

/// Per-edge values (top, right, bottom, left).
#[derive(Clone, Copy, Debug, Default, PartialEq)]
pub struct Edges<T: Copy + Default> {
    pub top: T,
    pub right: T,
    pub bottom: T,
    pub left: T,
}

} // verus!
