//! What the platform hands the editor: clipboard bitmaps, and the channel a
//! running instance is asked to quit through.

pub mod dib;
pub mod quit;
