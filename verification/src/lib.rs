//! Patches for reconciling a desired instance tree with a live one.
//!
//! A [`patch::PatchSet`] says what should change; applying it with
//! [`apply::apply_patch_set`] changes a [`tree::LiveTree`] and yields an
//! [`patch::AppliedPatchSet`] that says what did change. Entries whose target
//! is missing are skipped, never reported as failures.
//!
//! The tree's instances live in an `rbx_dom_weak::RbxTree`; [`dom`] holds what
//! is taken on trust about it. [`effect`] states what applying a patch does,
//! [`apply`] does it, and [`laws`] proves what follows.

pub mod dom;
pub mod snapshot;
pub mod tree;
pub mod patch;
pub mod effect;
pub mod apply;
pub mod laws;
