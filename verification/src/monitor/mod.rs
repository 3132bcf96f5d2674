//! Reading the drawing of a network: graphviz's `-Tplain-ext` output.
pub mod plain_ext;
pub mod tally;
