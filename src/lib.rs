//! Analysis of linear electrical networks made of resistors, capacitors and
//! inductors, composed in series and in parallel as a tree.
//!
//! The library holds the structure of a network and the rules that drive its
//! analysis: the composition of impedances from the leaves up, the identifiers
//! of the tree's positions, the initialisation levels, and the decisions taken
//! while currents and tensions are handed down the tree at each spectral line.
//! The numbers themselves (rational functions of the pulse, complex
//! amplitudes) are supplied through the traits of [`algebra`].
pub mod algebra;
pub mod circuit;
pub mod component;
pub mod dipole;
pub mod error;
pub mod node;
pub mod propagation;
pub mod rules;
pub mod source;
pub mod state;
