//! Canonical-order checker for declaration lists.
//!
//! Given the declarations of a container (enum variants, struct fields,
//! impl or trait members, match or let arms), the checker verifies that the
//! non-excluded declarations appear in sorted order under a path-based
//! lexicographic comparison, with a reserved wildcard segment that may
//! legally sort first or last.  On a violation it reports the misplaced
//! declaration together with the correctly placed declaration it should
//! have preceded.

pub mod check;
pub mod compare;
pub mod decl;
pub mod laws;
