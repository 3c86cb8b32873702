//! Layout constraints and spring-driven motion for 4x4 transforms, in fixed-point arithmetic.
//!
//! A [`constraint::Constraint`] says where an element's box goes relative to its parent's
//! box; a [`layout::Layout`] resolves it to a transform. A [`spring_mat4::SpringMat4`] moves
//! a transform toward such a target, one damped [`spring::Spring`] per cell and one step per
//! frame, and a [`driver::Driver`] ticks the transforms that are in motion and collects the
//! events of those that arrive. [`settling`] proves that they do arrive.
//!
//! Every quantity is a [`fixed::Fixed`]: a signed number with 24 fractional bits. Nothing here
//! can overflow, divide by zero or leave the representable range: results that would do so
//! saturate, and each contract says exactly which value comes out.

pub mod fixed;
pub mod vec2;
pub mod mat4;
pub mod spring;
pub mod spring_mat4;
pub mod settling;
pub mod driver;
pub mod constraint;
pub mod layout;
pub mod display;
pub mod stroke;
pub mod todo;
