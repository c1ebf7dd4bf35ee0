//! A JSON-like value model whose object variant is an ordered map: keys are
//! kept sorted in one vector, values aligned index-for-index in a second, and
//! lookups go by binary search.
pub mod index;
pub mod number;
pub mod object;
pub mod order;
pub mod value;

pub use index::Index;
pub use index::Sealed;
pub use number::Number;
pub use object::Entry;
pub use object::Iter;
pub use object::Object;
pub use object::OccupiedEntry;
pub use object::VacantEntry;
pub use order::lex_le;
pub use order::lex_lt;
pub use order::sorted_le;
pub use order::sorted_strict;
pub use value::Value;
