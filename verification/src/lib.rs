//! An EditorConfig core: works out the properties that the EditorConfig
//! files of a file's directories assign to it.
//!
//! Reading the files is left to the caller: each directory's file is handed
//! over as the lines it holds (see `EditorConfigFile`), outermost directory
//! first. All the keys are lower-cased with `str::to_lowercase`; values are
//! kept as they are, except for those of the supported properties.

pub mod glob;
pub mod laws;
pub mod matcher;
pub mod paths;
pub mod properties;
pub mod property;
pub mod resolve;
pub mod rules;
pub mod text;
pub mod version;

pub use crate::properties::Properties;
pub use crate::property::{Charset, EndOfLine, IndentStyle, Property};
pub use crate::resolve::{
    properties, properties_with_options, try_properties, try_properties_with_options,
    EditorConfigFile, Error, Options,
};
pub use crate::version::{max_version, Version};
