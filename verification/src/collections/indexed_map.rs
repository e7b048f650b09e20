//! The parts of an indexed map: the expressions that query it, and the
//! ordered multimap that backs its ordered indexes.
pub mod expr;
pub mod fn_ord_map;
