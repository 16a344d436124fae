//! The reconciliation core of a declarative view layer for the DOM.
//!
//! A tree of views says what should exist. Building a view yields a live node
//! and the state that belongs to it; rebuilding a view against the one that
//! came before changes both in place and records which mutations the backend
//! has to apply. Messages find their way back to the view that asked for them
//! along a path of identities.
pub mod app_driver;
pub mod attributes;
pub mod change_flags;
pub mod context;
pub mod elements;
pub mod id;
pub mod laws;
pub mod message;
pub mod mutation;
pub mod on_event;
pub mod sequence;
pub mod tagged;
pub mod text;
pub mod vec_sequence;
pub mod vec_splice;
pub mod view;

pub use crate::app_driver::{dispatch, AppDriver, DriverCtx};
pub use crate::attributes::{apply_attribute_changes, AttributeTable};
pub use crate::change_flags::ChangeFlags;
pub use crate::context::{Cx, CxView};
pub use crate::elements::{
    build_element_view, custom_element, rebuild_element_view, CustomElement, ElementState,
    HTML_NS, MATHML_NS, SVG_NS,
};
pub use crate::id::{Id, NodeId, Pod};
pub use crate::message::{Message, MessageResult};
pub use crate::mutation::{Mutation, MutationView};
pub use crate::on_event::{on_event, OnEvent, OnEventState};
pub use crate::sequence::ViewSequence;
pub use crate::tagged::{
    div, element, math, svg, Div, DivTag, Element, Math, MathTag, Svg, SvgTag, Tag,
};
pub use crate::vec_splice::VecSplice;
pub use crate::view::{can_build, ViewMarker, ViewNode};
