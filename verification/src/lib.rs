//! A verified value-abstraction layer over a dynamically typed host runtime.
//!
//! A statically typed validation engine must inspect, narrow, and construct
//! values that live in the object graph of a dynamically typed host. The
//! host's heap is modelled here as an explicit object table: every object
//! carries a closed type tag, a reference count, and its payload as plain
//! data. On top of that model sit the narrowable views that the engine works
//! with; their behaviour is stated in contracts and proved.

pub mod decimal;
pub mod host;
pub mod value;
