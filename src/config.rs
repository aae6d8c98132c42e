//! A storage's options: the volume configuration is read into settings,
//! with every malformed option rejected before anything is created.
use vstd::prelude::*;
use vstd::slice::slice_to_vec;
use crate::files::{FilesMgr, OnClosure};
use crate::keyexpr::{bytes_equal, segments, split_segments, views};
use crate::storage::FileSystemStorage;

verus! {

/// A value of the volume configuration, as far as the options read it.
#[derive(Debug)]
pub enum ConfigValue {
    Bool(bool),
    Str(Vec<u8>),
    Other,
}

/// The boolean options.
#[derive(Clone, Copy, Debug, PartialEq, Eq, Structural)]
pub enum BoolOption {
    ReadOnly,
    FollowLinks,
    KeepMimeTypes,
}

#[derive(Clone, Copy, Debug, PartialEq, Eq, Structural)]
pub enum ConfigError {
    /// The volume configuration is not an object.
    NotAnObject,
    /// A boolean option holds something else.
    NotABoolean(BoolOption),
    /// `on_closure` is neither `delete_all` nor `do_nothing`.
    InvalidOnClosure,
    /// `dir` is absent or not a string.
    MissingDir,
    /// `dir` is an absolute path.
    AbsoluteDir,
    /// `dir` has a `..` component.
    ParentDirInPath,
}

/// The settings of one storage.
#[derive(Debug)]
pub struct StorageSettings {
    pub read_only: bool,
    pub follow_links: bool,
    pub keep_mime: bool,
    pub on_closure: OnClosure,
    pub base_dir: Vec<u8>,
}

pub ghost struct SettingsView {
    pub read_only: bool,
    pub follow_links: bool,
    pub keep_mime: bool,
    pub on_closure: OnClosure,
    pub base_dir: Seq<u8>,
}

impl View for StorageSettings {
    type V = SettingsView;

    open spec fn view(&self) -> SettingsView {
        SettingsView {
            read_only: self.read_only,
            follow_links: self.follow_links,
            keep_mime: self.keep_mime,
            on_closure: self.on_closure,
            base_dir: self.base_dir@,
        }
    }
}

/// The value of the first entry of `cfg` named `key`.
pub open spec fn lookup(cfg: Seq<(Vec<u8>, ConfigValue)>, key: Seq<u8>) -> Option<ConfigValue>
    decreases cfg.len(),
{
    if cfg.len() == 0 {
        None
    } else if cfg[0].0@ == key {
        Some(cfg[0].1)
    } else {
        lookup(cfg.drop_first(), key)
    }
}

pub open spec fn option_name(o: BoolOption) -> Seq<u8> {
    match o {
        BoolOption::ReadOnly => seq![114u8, 101, 97, 100, 95, 111, 110, 108, 121],
        BoolOption::FollowLinks => seq![102u8, 111, 108, 108, 111, 119, 95, 108, 105, 110, 107, 115],
        BoolOption::KeepMimeTypes => seq![
            107u8, 101, 101, 112, 95, 109, 105, 109, 101, 95, 116, 121, 112, 101, 115,
        ],
    }
}

pub open spec fn option_default(o: BoolOption) -> bool {
    o == BoolOption::KeepMimeTypes
}

/// A boolean option: its value, its default where it is absent, an error
/// where it is anything else.
pub open spec fn bool_setting(cfg: Seq<(Vec<u8>, ConfigValue)>, o: BoolOption) -> Result<bool, ConfigError> {
    match lookup(cfg, option_name(o)) {
        Some(ConfigValue::Bool(b)) => Ok(b),
        None => Ok(option_default(o)),
        _ => Err(ConfigError::NotABoolean(o)),
    }
}

pub open spec fn delete_all_name() -> Seq<u8> {
    seq![100u8, 101, 108, 101, 116, 101, 95, 97, 108, 108]
}

pub open spec fn do_nothing_name() -> Seq<u8> {
    seq![100u8, 111, 95, 110, 111, 116, 104, 105, 110, 103]
}

pub open spec fn on_closure_key() -> Seq<u8> {
    seq![111u8, 110, 95, 99, 108, 111, 115, 117, 114, 101]
}

pub open spec fn dir_key() -> Seq<u8> {
    seq![100u8, 105, 114]
}

/// The closure policy: `do_nothing` where absent.
pub open spec fn on_closure_setting(cfg: Seq<(Vec<u8>, ConfigValue)>) -> Result<OnClosure, ConfigError> {
    match lookup(cfg, on_closure_key()) {
        None => Ok(OnClosure::DoNothing),
        Some(ConfigValue::Str(s)) => if s@ == delete_all_name() {
            Ok(OnClosure::DeleteAll)
        } else if s@ == do_nothing_name() {
            Ok(OnClosure::DoNothing)
        } else {
            Err(ConfigError::InvalidOnClosure)
        },
        _ => Err(ConfigError::InvalidOnClosure),
    }
}

/// Whether a `/`-separated path has a `..` component.
pub open spec fn has_parent_component(d: Seq<u8>) -> bool {
    exists|i: int| 0 <= i < segments(d).len() && segments(d)[i] == seq![0x2Eu8, 0x2Eu8]
}

/// `dir` appended to `root` as a path component.
pub open spec fn join_path(root: Seq<u8>, dir: Seq<u8>) -> Seq<u8> {
    if root.len() == 0 || root.last() == 0x2Fu8 {
        root + dir
    } else {
        root + seq![0x2Fu8] + dir
    }
}

/// The directory of a storage under `root`: `dir` must be present, a string,
/// relative and without `..`.
pub open spec fn dir_setting(root: Seq<u8>, cfg: Seq<(Vec<u8>, ConfigValue)>) -> Result<Seq<u8>, ConfigError> {
    match lookup(cfg, dir_key()) {
        Some(ConfigValue::Str(d)) => if d@.len() > 0 && d@[0] == 0x2Fu8 {
            Err(ConfigError::AbsoluteDir)
        } else if has_parent_component(d@) {
            Err(ConfigError::ParentDirInPath)
        } else {
            Ok(join_path(root, d@))
        },
        _ => Err(ConfigError::MissingDir),
    }
}

/// The settings that a configuration gives, or its first error, with the
/// options read in this order: read_only, follow_links, keep_mime_types,
/// on_closure, dir.
pub open spec fn settings_of(root: Seq<u8>, cfg: Option<Seq<(Vec<u8>, ConfigValue)>>) -> Result<
    SettingsView,
    ConfigError,
> {
    match cfg {
        None => Err(ConfigError::NotAnObject),
        Some(c) => match (
            bool_setting(c, BoolOption::ReadOnly),
            bool_setting(c, BoolOption::FollowLinks),
            bool_setting(c, BoolOption::KeepMimeTypes),
            on_closure_setting(c),
            dir_setting(root, c),
        ) {
            (Err(e), _, _, _, _) => Err(e),
            (_, Err(e), _, _, _) => Err(e),
            (_, _, Err(e), _, _) => Err(e),
            (_, _, _, Err(e), _) => Err(e),
            (_, _, _, _, Err(e)) => Err(e),
            (Ok(read_only), Ok(follow_links), Ok(keep_mime), Ok(on_closure), Ok(base_dir)) => Ok(
                SettingsView { read_only, follow_links, keep_mime, on_closure, base_dir },
            ),
        },
    }
}

pub open spec fn cfg_view(o: Option<&Vec<(Vec<u8>, ConfigValue)>>) -> Option<Seq<(Vec<u8>, ConfigValue)>> {
    match o {
        Some(c) => Some(c@),
        None => None,
    }
}

/// The value of the first entry of `cfg` named `key`.
pub fn get_value<'a>(cfg: &'a Vec<(Vec<u8>, ConfigValue)>, key: &[u8]) -> (r: Option<&'a ConfigValue>)
    ensures
        r matches Some(v) ==> lookup(cfg@, key@) == Some(*v),
        r is None ==> lookup(cfg@, key@) is None,
{
    let mut i: usize = 0;
    assert(cfg@.skip(0) =~= cfg@);
    while i < cfg.len()
        invariant
            i <= cfg@.len(),
            lookup(cfg@, key@) == lookup(cfg@.skip(i as int), key@),
        decreases cfg@.len() - i,
    {
        assert(cfg@.skip(i as int).drop_first() =~= cfg@.skip(i + 1));
        if bytes_equal(cfg[i].0.as_slice(), key) {
            return Some(&cfg[i].1);
        }
        i = i + 1;
    }
    None
}

fn option_name_of(o: BoolOption) -> (r: Vec<u8>)
    ensures
        r@ == option_name(o),
{
    let r = match o {
        BoolOption::ReadOnly => vec![114u8, 101, 97, 100, 95, 111, 110, 108, 121],
        BoolOption::FollowLinks => vec![102u8, 111, 108, 108, 111, 119, 95, 108, 105, 110, 107, 115],
        BoolOption::KeepMimeTypes => vec![
            107u8, 101, 101, 112, 95, 109, 105, 109, 101, 95, 116, 121, 112, 101, 115,
        ],
    };
    assert(r@ =~= option_name(o));
    r
}

/// A boolean option of `from`, or `default` where it is absent.
pub fn extract_bool(from: &Vec<(Vec<u8>, ConfigValue)>, option: BoolOption, default: bool) -> (r: Result<bool, ConfigError>)
    ensures
        r == (match lookup(from@, option_name(option)) {
            Some(ConfigValue::Bool(b)) => Ok(b),
            None => Ok(default),
            _ => Err(ConfigError::NotABoolean(option)),
        }),
{
    let name = option_name_of(option);
    match get_value(from, name.as_slice()) {
        Some(ConfigValue::Bool(b)) => Ok(*b),
        None => Ok(default),
        _ => Err(ConfigError::NotABoolean(option)),
    }
}

fn on_closure_of(cfg: &Vec<(Vec<u8>, ConfigValue)>) -> (r: Result<OnClosure, ConfigError>)
    ensures
        r == on_closure_setting(cfg@),
{
    let key: Vec<u8> = vec![111u8, 110, 95, 99, 108, 111, 115, 117, 114, 101];
    assert(key@ =~= on_closure_key());
    match get_value(cfg, key.as_slice()) {
        None => Ok(OnClosure::DoNothing),
        Some(ConfigValue::Str(s)) => {
            let delete_all: Vec<u8> = vec![100u8, 101, 108, 101, 116, 101, 95, 97, 108, 108];
            let do_nothing: Vec<u8> = vec![100u8, 111, 95, 110, 111, 116, 104, 105, 110, 103];
            assert(delete_all@ =~= delete_all_name());
            assert(do_nothing@ =~= do_nothing_name());
            if bytes_equal(s.as_slice(), delete_all.as_slice()) {
                Ok(OnClosure::DeleteAll)
            } else if bytes_equal(s.as_slice(), do_nothing.as_slice()) {
                Ok(OnClosure::DoNothing)
            } else {
                Err(ConfigError::InvalidOnClosure)
            }
        },
        _ => Err(ConfigError::InvalidOnClosure),
    }
}

/// Whether the path `d` has a `..` component.
pub fn contains_parent_dir(d: &[u8]) -> (r: bool)
    ensures
        r == has_parent_component(d@),
{
    let segs = split_segments(d);
    let parent: Vec<u8> = vec![0x2Eu8, 0x2Eu8];
    assert(parent@ =~= seq![0x2Eu8, 0x2Eu8]);
    let mut i: usize = 0;
    while i < segs.len()
        invariant
            views(segs@) == segments(d@),
            parent@ == seq![0x2Eu8, 0x2Eu8],
            i <= segs@.len(),
            forall|j: int| 0 <= j < i ==> segments(d@)[j] != seq![0x2Eu8, 0x2Eu8],
        decreases segs@.len() - i,
    {
        assert(segments(d@)[i as int] == segs@[i as int]@);
        if bytes_equal(segs[i].as_slice(), parent.as_slice()) {
            return true;
        }
        i = i + 1;
    }
    false
}

/// `dir` appended to `root` as a path component.
pub fn join(root: &[u8], dir: &[u8]) -> (r: Vec<u8>)
    ensures
        r@ == join_path(root@, dir@),
{
    let mut r = slice_to_vec(root);
    if root.len() > 0 && root[root.len() - 1] != 0x2Fu8 {
        r.push(0x2Fu8);
    }
    let mut i: usize = 0;
    let ghost start = r@;
    while i < dir.len()
        invariant
            i <= dir@.len(),
            r@ == start + dir@.take(i as int),
        decreases dir@.len() - i,
    {
        r.push(dir[i]);
        assert(dir@.take(i + 1) =~= dir@.take(i as int).push(dir@[i as int]));
        i = i + 1;
    }
    assert(dir@.take(i as int) =~= dir@);
    assert(r@ =~= join_path(root@, dir@));
    r
}

fn dir_of(root: &[u8], cfg: &Vec<(Vec<u8>, ConfigValue)>) -> (r: Result<Vec<u8>, ConfigError>)
    ensures
        match r {
            Ok(d) => dir_setting(root@, cfg@) == Ok::<Seq<u8>, ConfigError>(d@),
            Err(e) => dir_setting(root@, cfg@) == Err::<Seq<u8>, ConfigError>(e),
        },
{
    let key: Vec<u8> = vec![100u8, 105, 114];
    assert(key@ =~= dir_key());
    match get_value(cfg, key.as_slice()) {
        Some(ConfigValue::Str(d)) => {
            if d.len() > 0 && d[0] == 0x2Fu8 {
                Err(ConfigError::AbsoluteDir)
            } else if contains_parent_dir(d.as_slice()) {
                Err(ConfigError::ParentDirInPath)
            } else {
                Ok(join(root, d.as_slice()))
            }
        },
        _ => Err(ConfigError::MissingDir),
    }
}

/// The settings of a storage under `root` from its volume configuration
/// (`None` where that configuration is not an object).
pub fn storage_settings(root: &[u8], volume_cfg: Option<&Vec<(Vec<u8>, ConfigValue)>>) -> (r: Result<StorageSettings, ConfigError>)
    ensures
        match r {
            Ok(st) => settings_of(root@, cfg_view(volume_cfg)) == Ok::<
                SettingsView,
                ConfigError,
            >(st@),
            Err(e) => settings_of(root@, cfg_view(volume_cfg)) == Err::<
                SettingsView,
                ConfigError,
            >(e),
        },
{
    let cfg = match volume_cfg {
        Some(c) => c,
        None => {
            return Err(ConfigError::NotAnObject);
        },
    };
    let read_only = match extract_bool(cfg, BoolOption::ReadOnly, false) {
        Ok(b) => b,
        Err(e) => {
            return Err(e);
        },
    };
    let follow_links = match extract_bool(cfg, BoolOption::FollowLinks, false) {
        Ok(b) => b,
        Err(e) => {
            return Err(e);
        },
    };
    let keep_mime = match extract_bool(cfg, BoolOption::KeepMimeTypes, true) {
        Ok(b) => b,
        Err(e) => {
            return Err(e);
        },
    };
    let on_closure = match on_closure_of(cfg) {
        Ok(o) => o,
        Err(e) => {
            return Err(e);
        },
    };
    let base_dir = match dir_of(root, cfg) {
        Ok(d) => d,
        Err(e) => {
            return Err(e);
        },
    };
    Ok(StorageSettings { read_only, follow_links, keep_mime, on_closure, base_dir })
}

/// An empty storage with the given settings.
pub fn open_storage(settings: StorageSettings) -> (r: FileSystemStorage)
    ensures
        r.wf(),
        r.spec_read_only() == settings.read_only,
        r@.infos.is_empty(),
        r@.contents.is_empty(),
        r.spec_files_mgr().spec_base_dir() == settings.base_dir@,
        r.spec_files_mgr().spec_follow_links() == settings.follow_links,
        r.spec_files_mgr().spec_keep_mime() == settings.keep_mime,
        r.spec_files_mgr().spec_on_closure() == settings.on_closure,
{
    let mgr = FilesMgr::new(settings.base_dir, settings.follow_links, settings.keep_mime, settings.on_closure);
    FileSystemStorage::new(mgr, settings.read_only)
}

} // verus!
