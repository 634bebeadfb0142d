//! Accessibility tree representation for testing and parity checks.

use vstd::prelude::*;

verus! {

/// One node of an exported accessibility tree.
#[derive(Debug)]
pub struct AccessibilityNode {
    pub id: String,
    pub role: String,
    pub name: Option<String>,
    pub bounds: Option<(i32, i32, u32, u32)>,
    pub children: Vec<AccessibilityNode>,
}

/// A reproducible accessibility tree snapshot.
#[derive(Debug)]
pub struct AccessibilityTree {
    pub root_id: Option<String>,
    pub nodes: Vec<AccessibilityNode>,
}

/// Providers export a reproducible accessibility tree snapshot for tests.
pub trait AccessibilityProvider {
    fn export_tree(&self) -> AccessibilityTree;
}

/// Provider that exports an empty tree.
pub struct NoopAccessibility;

impl NoopAccessibility {
    pub fn new() -> (r: NoopAccessibility) {
        NoopAccessibility
    }

    /// The exported tree has no root and no nodes.
    pub fn export_tree(&self) -> (t: AccessibilityTree)
        ensures
            t.root_id is None,
            t.nodes@.len() == 0,
    {
        AccessibilityTree { root_id: None, nodes: Vec::new() }
    }
}

impl Default for NoopAccessibility {
    fn default() -> (r: NoopAccessibility) {
        NoopAccessibility::new()
    }
}

impl AccessibilityProvider for NoopAccessibility {
    fn export_tree(&self) -> AccessibilityTree {
        NoopAccessibility::export_tree(self)
    }
}

} // verus!
