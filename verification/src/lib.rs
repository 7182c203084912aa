//! The layout-and-dispatch core of an immediate-declaration GUI toolkit.
//!
//! Every frame the application declares a fresh tree of widgets. The core
//! lays the tree out, routes the input of the frame to it, has it painted,
//! and runs the callbacks that the widgets dispatched. What a widget has to
//! remember from frame to frame is kept in a store under the widget's
//! identity.
//!
//! Lengths and positions are whole numbers of layout units, 64 to a pixel.
//!
//! The core does not know what an application paints with, what its widgets
//! remember, or what its callbacks do. [`Context`] and [`Widget`] therefore
//! take four type parameters: `R`, the painter; `V`, the values kept in
//! [`Memory`]; `F`, the functions of external callbacks; and `P`, the
//! payloads that callbacks are dispatched with. Types of state are told
//! apart by [`TypeTag`]s, which the application hands out.

pub mod accessor;
pub mod base_widgets;
pub mod box_layout;
pub mod callback;
pub mod callback_accessor;
pub mod color;
pub mod context;
pub mod geometry;
pub mod input;
pub mod layout;
pub mod linear_map;
pub mod memory;
pub mod prelude;
pub mod transform;
pub mod type_tag;
pub mod widget;
pub mod widget_id;

pub use crate::accessor::AccessError;
pub use crate::accessor::AccessorRegistry;
pub use crate::accessor::StateAccessor;
pub use crate::base_widgets::box_container::BoxContainer;
pub use crate::base_widgets::margin_container::MarginContainer;
pub use crate::base_widgets::sized_container::SizedContainer;
pub use crate::base_widgets::spacer::Spacer;
pub use crate::base_widgets::stack_container::StackContainer;
pub use crate::callback::Callback;
pub use crate::callback::DispatchedCallbackStorage;
pub use crate::callback::DispatchedExternalCallback;
pub use crate::callback::ExternalCallback;
pub use crate::callback::PollToken;
pub use crate::callback::RawPollToken;
pub use crate::callback_accessor::CallbackAccessor;
pub use crate::context::Context;
pub use crate::geometry::Pos2;
pub use crate::geometry::Rect;
pub use crate::geometry::Vec2;
pub use crate::input::Event;
pub use crate::input::EventStatus;
pub use crate::input::InputState;
pub use crate::input::InputWidgetState;
pub use crate::input::MouseButton;
pub use crate::layout::Align;
pub use crate::layout::Axis;
pub use crate::layout::AxisDirections;
pub use crate::layout::Layout;
pub use crate::layout::LayoutHints;
pub use crate::layout::SizeHint;
pub use crate::layout::SizeHints;
pub use crate::memory::Memory;
pub use crate::type_tag::TypeTag;
pub use crate::widget::DynWidget;
pub use crate::widget::ToDynWidget;
pub use crate::widget::Widget;
pub use crate::widget_id::IdGen;
pub use crate::widget_id::WidgetId;
