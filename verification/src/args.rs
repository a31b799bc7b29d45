//! Command-line switches and the settings they stand for.

use vstd::prelude::*;

use crate::config::{
    empty_config, empty_dict_config, empty_engine_config, empty_tokenizer_config, extend_strings,
    Config, ConfigView, DictConfig, DictConfigView, EngineConfig, EngineConfigView, Locale,
    TokenizerConfig, TypeEngineConfig, Walk, WalkView,
};
use crate::dict::strings_view;

verus! {

/// How messages are rendered.
#[derive(Debug, Clone, Copy, PartialEq, Eq, Structural)]
pub enum Format {
    Silent,
    Brief,
    Long,
    Json,
}

impl Default for Format {
    fn default() -> (r: Format)
        ensures
            r == Format::Long,
    {
        Format::Long
    }
}

/// A switch and its negation: set, unset, or left to the settings.
pub open spec fn spec_resolve(yes: bool, no: bool) -> Option<bool> {
    if yes {
        Some(true)
    } else if no {
        Some(false)
    } else {
        None
    }
}

/// The value of a switch given as `--x` (`yes`) or `--no-x` (`no`); the parser lets at
/// most one of them through.
pub fn resolve_bool_arg(yes: bool, no: bool) -> (r: Option<bool>)
    requires
        !(yes && no),
    ensures
        r == spec_resolve(yes, no),
{
    match (yes, no) {
        (true, false) => Some(true),
        (false, true) => Some(false),
        _ => None,
    }
}

/// Switches about the files checked.
#[derive(Debug, Clone, PartialEq, Eq)]
pub struct FileArgs {
    pub binary: bool,
    pub no_binary: bool,
    pub no_check_filenames: bool,
    pub check_filenames: bool,
    pub no_check_files: bool,
    pub check_files: bool,
    pub unicode: bool,
    pub no_unicode: bool,
    pub locale: Option<Locale>,
}

/// No switch is given with its negation.
pub open spec fn file_args_consistent(a: &FileArgs) -> bool {
    &&& !(a.binary && a.no_binary)
    &&& !(a.check_filenames && a.no_check_filenames)
    &&& !(a.check_files && a.no_check_files)
    &&& !(a.unicode && a.no_unicode)
}

impl FileArgs {
    /// The engine settings these switches stand for.
    pub fn to_config(&self) -> (r: EngineConfig)
        requires
            file_args_consistent(self),
        ensures
            r@ == (EngineConfigView {
                binary: spec_resolve(self.binary, self.no_binary),
                check_filename: spec_resolve(self.check_filenames, self.no_check_filenames),
                check_file: spec_resolve(self.check_files, self.no_check_files),
                tokenizer: Some(
                    TokenizerConfig {
                        unicode: spec_resolve(self.unicode, self.no_unicode),
                        ..empty_tokenizer_config()
                    },
                ),
                dict: Some(DictConfigView { locale: self.locale, ..empty_dict_config() }),
                extend_ignore_re: seq![],
            }),
    {
        let mut tokenizer = TokenizerConfig::default();
        tokenizer.unicode = resolve_bool_arg(self.unicode, self.no_unicode);
        let mut dict = DictConfig::default();
        dict.locale = self.locale;
        let r = EngineConfig {
            binary: resolve_bool_arg(self.binary, self.no_binary),
            check_filename: resolve_bool_arg(self.check_filenames, self.no_check_filenames),
            check_file: resolve_bool_arg(self.check_files, self.no_check_files),
            tokenizer: Some(tokenizer),
            dict: Some(dict),
            extend_ignore_re: Vec::new(),
        };
        assert(r@.extend_ignore_re =~= Seq::<Seq<char>>::empty());
        r
    }
}

/// Switches about walking files.
#[derive(Debug, Clone, PartialEq, Eq)]
pub struct WalkArgs {
    pub exclude: Vec<String>,
    pub hidden: bool,
    pub no_hidden: bool,
    pub no_ignore: bool,
    pub ignore: bool,
    pub no_ignore_dot: bool,
    pub ignore_dot: bool,
    pub no_ignore_global: bool,
    pub ignore_global: bool,
    pub no_ignore_parent: bool,
    pub ignore_parent: bool,
    pub no_ignore_vcs: bool,
    pub ignore_vcs: bool,
}

pub open spec fn walk_args_consistent(a: &WalkArgs) -> bool {
    &&& !(a.hidden && a.no_hidden)
    &&& !(a.ignore && a.no_ignore)
    &&& !(a.ignore_dot && a.no_ignore_dot)
    &&& !(a.ignore_global && a.no_ignore_global)
    &&& !(a.ignore_parent && a.no_ignore_parent)
    &&& !(a.ignore_vcs && a.no_ignore_vcs)
}

impl WalkArgs {
    /// The walk settings these switches stand for: searching hidden files means not
    /// ignoring them.
    pub fn to_config(&self) -> (r: Walk)
        requires
            walk_args_consistent(self),
        ensures
            r@ == (WalkView {
                extend_exclude: strings_view(self.exclude@),
                ignore_hidden: spec_resolve(self.no_hidden, self.hidden),
                ignore_files: spec_resolve(self.ignore, self.no_ignore),
                ignore_dot: spec_resolve(self.ignore_dot, self.no_ignore_dot),
                ignore_vcs: spec_resolve(self.ignore_vcs, self.no_ignore_vcs),
                ignore_global: spec_resolve(self.ignore_global, self.no_ignore_global),
                ignore_parent: spec_resolve(self.ignore_parent, self.no_ignore_parent),
            }),
    {
        let mut exclude: Vec<String> = Vec::new();
        extend_strings(&mut exclude, &self.exclude);
        assert(strings_view(exclude@) =~= strings_view(self.exclude@));
        Walk {
            extend_exclude: exclude,
            ignore_hidden: resolve_bool_arg(self.no_hidden, self.hidden),
            ignore_files: resolve_bool_arg(self.ignore, self.no_ignore),
            ignore_dot: resolve_bool_arg(self.ignore_dot, self.no_ignore_dot),
            ignore_vcs: resolve_bool_arg(self.ignore_vcs, self.no_ignore_vcs),
            ignore_global: resolve_bool_arg(self.ignore_global, self.no_ignore_global),
            ignore_parent: resolve_bool_arg(self.ignore_parent, self.no_ignore_parent),
        }
    }
}

/// Switches about settings.
#[derive(Debug, Clone, PartialEq, Eq)]
pub struct ConfigArgs {
    pub walk: WalkArgs,
    pub overrides: FileArgs,
}

impl ConfigArgs {
    /// The settings these switches stand for: walking, and overrides of every engine.
    pub fn to_config(&self) -> (r: Config)
        requires
            walk_args_consistent(&self.walk),
            file_args_consistent(&self.overrides),
        ensures
            r@ == (ConfigView {
                files: r@.files,
                overrides: r@.overrides,
                ..empty_config()
            }),
            r@.files == self.walk.to_config_spec(),
            r@.overrides == self.overrides.to_config_spec(),
    {
        Config {
            files: self.walk.to_config(),
            default: EngineConfig::default(),
            type_: TypeEngineConfig::default(),
            overrides: self.overrides.to_config(),
        }
    }
}

impl WalkArgs {
    pub open spec fn to_config_spec(&self) -> WalkView {
        WalkView {
            extend_exclude: strings_view(self.exclude@),
            ignore_hidden: spec_resolve(self.no_hidden, self.hidden),
            ignore_files: spec_resolve(self.ignore, self.no_ignore),
            ignore_dot: spec_resolve(self.ignore_dot, self.no_ignore_dot),
            ignore_vcs: spec_resolve(self.ignore_vcs, self.no_ignore_vcs),
            ignore_global: spec_resolve(self.ignore_global, self.no_ignore_global),
            ignore_parent: spec_resolve(self.ignore_parent, self.no_ignore_parent),
        }
    }
}

impl FileArgs {
    pub open spec fn to_config_spec(&self) -> EngineConfigView {
        EngineConfigView {
            binary: spec_resolve(self.binary, self.no_binary),
            check_filename: spec_resolve(self.check_filenames, self.no_check_filenames),
            check_file: spec_resolve(self.check_files, self.no_check_files),
            tokenizer: Some(
                TokenizerConfig {
                    unicode: spec_resolve(self.unicode, self.no_unicode),
                    ..empty_tokenizer_config()
                },
            ),
            dict: Some(DictConfigView { locale: self.locale, ..empty_dict_config() }),
            extend_ignore_re: seq![],
        }
    }
}

} // verus!
