//! The applications built into Binder itself.
use vstd::prelude::*;

verus! {

pub const ABOUT_ENTRY: &'static str = "internal:about";

pub const TEST_ENTRY: &'static str = "internal:test";

pub const ABOUT_ROLE: &'static str = "--role=about";

pub const TEST_ROLE: &'static str = "--role=test";

pub const ABOUT_BUNDLE_ID: &'static str = "com.mochi.binder.about";

pub const TEST_BUNDLE_ID: &'static str = "com.mochi.binder.test";

pub const INTERNAL_BUNDLE_ID: &'static str = "org.mochios.binder.internal";

} // verus!
