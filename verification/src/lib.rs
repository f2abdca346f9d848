//! A belief-propagation inference core for recovering small integer secrets
//! constrained by linear inequalities.
//!
//! Each unknown coefficient is a variable node over a bounded symmetric
//! integer domain; each observed inequality is a check (factor) node.  The
//! nodes exchange belief messages: weight vectors over the domain, modelled
//! here with exact rational weights so that every algorithm of the core can
//! be verified.  An external scheduler owns the graph and drives rounds; an
//! external numeric backend may accelerate the check node's convolutions.

pub mod bin_tree;
pub mod bin_var_node;
pub mod check_msg;
pub mod check_node;
pub mod errors;
pub mod sum_dist;
pub mod weight;
