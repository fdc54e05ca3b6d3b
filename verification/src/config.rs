use vstd::prelude::*;

verus! {

/// Windowing parameters for the sliding-window chunk planner.
///
/// `context_limit` is the number of tokens the downstream transformation
/// backend can take in one call; `overlap_margin` is the number of tokens of
/// surrounding text included as non-transformed context on each side of a
/// chunk.  Each chunk advances by `context_limit - overlap_margin` content
/// tokens, so a configuration is usable only when the margin is strictly
/// smaller than the limit.
#[derive(Clone, Copy, Debug, PartialEq, Eq, Structural)]
pub struct WindowConfig {
    pub context_limit: usize,
    pub overlap_margin: usize,
}

/// The error raised when a run is asked to start with windowing parameters
/// whose overlap margin leaves no room for content.  Fatal: no planning or
/// dispatch happens after it.
#[derive(Clone, Copy, Debug, PartialEq, Eq, Structural)]
pub struct ConfigurationError;

impl WindowConfig {
    /// A configuration is valid when the overlap margin leaves at least one
    /// content token per chunk.
    pub open spec fn is_valid(self) -> bool {
        self.overlap_margin < self.context_limit
    }

    /// The number of content tokens each chunk covers (and the step by which
    /// the window advances).
    pub open spec fn spec_chunk_size(self) -> int {
        self.context_limit - self.overlap_margin
    }

    /// Builds a configuration, rejecting exactly those parameter pairs whose
    /// margin is not strictly below the limit.
    pub fn new(context_limit: usize, overlap_margin: usize) -> (r: Result<WindowConfig,
        ConfigurationError>)
        ensures
            r matches Ok(c) ==> c == (WindowConfig { context_limit, overlap_margin })
                && c.is_valid(),
            r is Err <==> overlap_margin >= context_limit,
    {
        if overlap_margin < context_limit {
            Ok(WindowConfig { context_limit, overlap_margin })
        } else {
            Err(ConfigurationError)
        }
    }

    /// Executable chunk size; defined only for valid configurations.
    pub fn chunk_size(&self) -> (r: usize)
        requires
            self.is_valid(),
        ensures
            r == self.spec_chunk_size(),
    {
        self.context_limit - self.overlap_margin
    }
}

} // verus!
