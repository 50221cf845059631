//! Interactive forms.

pub mod acroform;
