//! What can be wrong with a configuration before rendering starts.
use vstd::prelude::*;

verus! {

/// A fault in what was configured. Each is found before any ray is traced.
#[derive(Clone, Copy, Debug, PartialEq, Eq, Structural)]
pub enum ConfigError {
    /// The scene holds no object.
    EmptyScene,
    /// The image is zero pixels wide or zero pixels high.
    ZeroDimensions,
    /// An object of the scene has no bounding box.
    Unbounded,
}

impl ConfigError {
    /// What to tell the user.
    pub open spec fn text(self) -> Seq<char> {
        match self {
            ConfigError::EmptyScene => "the scene holds no object"@,
            ConfigError::ZeroDimensions => "the image has no pixels"@,
            ConfigError::Unbounded => "an object of the scene has no bounding box"@,
        }
    }

    /// The fault in words.
    pub fn message(&self) -> (words: &'static str)
        ensures
            words@ == self.text(),
    {
        match self {
            ConfigError::EmptyScene => "the scene holds no object",
            ConfigError::ZeroDimensions => "the image has no pixels",
            ConfigError::Unbounded => "an object of the scene has no bounding box",
        }
    }
}

} // verus!
