//! What most users of the library need, in one place.

pub use crate::accessor::AccessError;
pub use crate::accessor::AccessorRegistry;
pub use crate::base_widgets::box_container::BoxContainer;
pub use crate::base_widgets::margin_container::MarginContainer;
pub use crate::base_widgets::sized_container::SizedContainer;
pub use crate::base_widgets::spacer::Spacer;
pub use crate::base_widgets::stack_container::StackContainer;
pub use crate::callback::Callback;
pub use crate::callback::PollToken;
pub use crate::callback_accessor::CallbackAccessor;
pub use crate::context::Context;
pub use crate::geometry::Pos2;
pub use crate::geometry::Rect;
pub use crate::geometry::Vec2;
pub use crate::input::Event;
pub use crate::input::EventStatus;
pub use crate::input::InputState;
pub use crate::input::MouseButton;
pub use crate::layout::Align;
pub use crate::layout::Axis;
pub use crate::layout::AxisDirections;
pub use crate::layout::Layout;
pub use crate::layout::LayoutHints;
pub use crate::layout::SizeHint;
pub use crate::layout::SizeHints;
pub use crate::memory::Memory;
pub use crate::type_tag::TypeTag;
pub use crate::widget::DynWidget;
pub use crate::widget::ToDynWidget;
pub use crate::widget::Widget;
pub use crate::widget_id::IdGen;
pub use crate::widget_id::WidgetId;
