//! The transform of JavaScript classes with decorators into classes without, for two versions of
//! the TC39 decorators proposal: that of 2023-11 and that of 2022-03.
//!
//! [`decorator::Tc39Decorator`] is driven by a traversal of the program. It is told of each class
//! that is entered ([`decorator::Tc39Decorator::enter_class`]) and of each class, expression and
//! statement that is left, and changes the nodes in place. The nodes are those of [`ast`]; what
//! the transform does to them is said over their views, in [`model`].
pub mod ast;
pub mod builder;
pub mod context;
pub mod decorator;
pub mod laws;
pub mod model;
