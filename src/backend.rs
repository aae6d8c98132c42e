//! The backend: one root directory under which every storage gets a
//! directory of its own.
use vstd::prelude::*;
use vstd::slice::slice_to_vec;
use crate::config::{ConfigValue, ConfigError, SettingsView, StorageSettings, cfg_view, join, join_path, settings_of, storage_settings};

verus! {

/// The directory name used under the home directory when no root is given.
pub open spec fn default_root_dir() -> Seq<u8> {
    seq![122u8, 98, 97, 99, 107, 101, 110, 100, 95, 102, 115]
}

/// The root of all storages: the configured one, or the default directory
/// under `home`.
pub fn root_dir(configured: Option<&[u8]>, home: &[u8]) -> (r: Vec<u8>)
    ensures
        r@ == match configured {
            Some(c) => c@,
            None => join_path(home@, default_root_dir()),
        },
{
    match configured {
        Some(c) => slice_to_vec(c),
        None => {
            let d: Vec<u8> = vec![122u8, 98, 97, 99, 107, 101, 110, 100, 95, 102, 115];
            assert(d@ =~= default_root_dir());
            join(home, d.as_slice())
        },
    }
}

pub struct FileSystemBackend {
    root: Vec<u8>,
    version: Vec<u8>,
}

impl FileSystemBackend {
    pub closed spec fn spec_root(&self) -> Seq<u8> {
        self.root@
    }

    pub closed spec fn spec_version(&self) -> Seq<u8> {
        self.version@
    }

    pub fn new(root: Vec<u8>, version: Vec<u8>) -> (r: FileSystemBackend)
        ensures
            r.spec_root() == root@,
            r.spec_version() == version@,
    {
        FileSystemBackend { root, version }
    }

    pub fn root(&self) -> (r: &Vec<u8>)
        ensures
            r@ == self.spec_root(),
    {
        &self.root
    }

    /// The status entries: `root` and `version`.
    pub fn get_admin_status(&self) -> (r: Vec<(Vec<u8>, Vec<u8>)>)
        ensures
            r@.len() == 2,
            r@[0].0@ == seq![114u8, 111, 111, 116],
            r@[0].1@ == self.spec_root(),
            r@[1].0@ == seq![118u8, 101, 114, 115, 105, 111, 110],
            r@[1].1@ == self.spec_version(),
    {
        let root_key: Vec<u8> = vec![114u8, 111, 111, 116];
        let version_key: Vec<u8> = vec![118u8, 101, 114, 115, 105, 111, 110];
        assert(root_key@ =~= seq![114u8, 111, 111, 116]);
        assert(version_key@ =~= seq![118u8, 101, 114, 115, 105, 111, 110]);
        let mut r: Vec<(Vec<u8>, Vec<u8>)> = Vec::new();
        r.push((root_key, slice_to_vec(self.root.as_slice())));
        r.push((version_key, slice_to_vec(self.version.as_slice())));
        r
    }

    /// The settings of a new storage under this backend's root.
    pub fn create_storage(&self, volume_cfg: Option<&Vec<(Vec<u8>, ConfigValue)>>) -> (r: Result<StorageSettings, ConfigError>)
        ensures
            match r {
                Ok(st) => settings_of(self.spec_root(), cfg_view(volume_cfg)) == Ok::<SettingsView, ConfigError>(st@),
                Err(e) => settings_of(self.spec_root(), cfg_view(volume_cfg)) == Err::<SettingsView, ConfigError>(e),
            },
    {
        storage_settings(self.root.as_slice(), volume_cfg)
    }
}

} // verus!
