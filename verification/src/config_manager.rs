//! Where the user configuration comes from: a value given up front, or a
//! file to be read.

use vstd::prelude::*;
use vstd::std_specs::convert::IntoSpec;

use std::path::PathBuf;

verus! {

/// `std::path::PathBuf`, carried through as it is.
#[verifier::external_type_specification]
#[verifier::external_body]
pub struct ExPathBuf(std::path::PathBuf);

/// The source of a configuration.
#[derive(Debug)]
pub enum ConfigSource<C> {
    /// A value; `None` once it has been handed out.
    Value(Option<C>),
    /// A file to read the configuration from.
    FilePath(PathBuf),
}

/// Holds the source of the configuration until the application takes it.
#[derive(Debug)]
pub struct ConfigManager<C> where C: Send + Sync + 'static {
    source: ConfigSource<C>,
}

impl<C> ConfigManager<C> where C: Send + Sync + 'static {
    /// The source held.
    pub closed spec fn source(&self) -> ConfigSource<C> {
        self.source
    }

    /// A manager that hands out `config`.
    pub fn from_value(config: C) -> (r: ConfigManager<C>)
        ensures
            r.source() == ConfigSource::Value(Some(config)),
    {
        ConfigManager { source: ConfigSource::Value(Some(config)) }
    }

    /// A manager that reads the configuration from the file at `path`.
    pub fn from_file_path<P: Into<PathBuf>>(path: P) -> (r: ConfigManager<C>)
        ensures
            r.source() matches ConfigSource::FilePath(p) && (P::obeys_into_spec() ==> p
                == path.into_spec()),
    {
        ConfigManager { source: ConfigSource::FilePath(path.into()) }
    }

    /// The path of the file to read, if the configuration comes from a file.
    pub fn file_path(&self) -> (r: Option<&PathBuf>)
        ensures
            match self.source() {
                ConfigSource::FilePath(p) => r == Some(&p),
                ConfigSource::Value(_) => r is None,
            },
    {
        match &self.source {
            ConfigSource::FilePath(p) => Some(p),
            ConfigSource::Value(_) => None,
        }
    }

    /// Hands out the value held, once: a second call, or a manager that holds
    /// a file path, gives `None`.
    pub fn take_config(&mut self) -> (r: Option<C>)
        ensures
            match old(self).source() {
                ConfigSource::Value(v) => r == v && final(self).source() == ConfigSource::<C>::Value(
                    None,
                ),
                ConfigSource::FilePath(_) => r is None && final(self).source() == old(self).source(),
            },
    {
        match &mut self.source {
            ConfigSource::Value(v) => v.take(),
            ConfigSource::FilePath(_) => None,
        }
    }
}

} // verus!
