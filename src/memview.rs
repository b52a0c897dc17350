use vstd::prelude::*;

verus! {

/// Bytes shown per row by default.
pub const DEFAULT_COLUMNS: usize = 16;

/// The state of the memory inspection window: whether it is open, and how
/// many bytes each of its rows shows.
pub struct MemoryEditor {
    pub open: bool,
    pub columns: usize,
}

impl MemoryEditor {
    /// An open window with `DEFAULT_COLUMNS` bytes per row.
    pub fn new() -> (r: Self)
        ensures
            r.open,
            r.columns == DEFAULT_COLUMNS,
    {
        MemoryEditor { open: true, columns: DEFAULT_COLUMNS }
    }
}

} // verus!
