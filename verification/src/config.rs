//! Settings for walking files, tokenizing and dictionaries, and how they layer.

use vstd::prelude::*;

use crate::builtin::str_eq;
use crate::dict::strings_view;
use crate::varcon::Category;

verus! {

/// File names that hold settings.
pub const SUPPORTED_FILE_NAMES: [&'static str; 4] = ["typos.toml", "_typos.toml", ".typos.toml", "pyproject.toml"];

pub open spec fn or_else(a: Option<bool>, b: Option<bool>) -> Option<bool> {
    match a {
        Some(x) => Some(x),
        None => b,
    }
}

pub open spec fn unwrap_or(a: Option<bool>, d: bool) -> bool {
    match a {
        Some(x) => x,
        None => d,
    }
}

/// Settings for walking files.
#[derive(Debug, PartialEq, Eq)]
pub struct Walk {
    pub extend_exclude: Vec<String>,
    /// Skip hidden files and directories.
    pub ignore_hidden: Option<bool>,
    /// Respect ignore files.
    pub ignore_files: Option<bool>,
    /// Respect .ignore files.
    pub ignore_dot: Option<bool>,
    /// Respect ignore files in vcs directories.
    pub ignore_vcs: Option<bool>,
    /// Respect global ignore files.
    pub ignore_global: Option<bool>,
    /// Respect ignore files in parent directories.
    pub ignore_parent: Option<bool>,
}

#[verifier::ext_equal]
pub struct WalkView {
    pub extend_exclude: Seq<Seq<char>>,
    pub ignore_hidden: Option<bool>,
    pub ignore_files: Option<bool>,
    pub ignore_dot: Option<bool>,
    pub ignore_vcs: Option<bool>,
    pub ignore_global: Option<bool>,
    pub ignore_parent: Option<bool>,
}

impl View for Walk {
    type V = WalkView;

    open spec fn view(&self) -> WalkView {
        WalkView {
            extend_exclude: strings_view(self.extend_exclude@),
            ignore_hidden: self.ignore_hidden,
            ignore_files: self.ignore_files,
            ignore_dot: self.ignore_dot,
            ignore_vcs: self.ignore_vcs,
            ignore_global: self.ignore_global,
            ignore_parent: self.ignore_parent,
        }
    }
}

/// Walk settings with nothing set.
pub open spec fn empty_walk() -> WalkView {
    WalkView {
        extend_exclude: seq![],
        ignore_hidden: None,
        ignore_files: None,
        ignore_dot: None,
        ignore_vcs: None,
        ignore_global: None,
        ignore_parent: None,
    }
}

/// `base` overridden by what `source` sets: exclusions accumulate; setting `ignore_files`
/// resets the finer ignore settings it covers, setting `ignore_vcs` resets `ignore_global`.
pub open spec fn spec_walk_update(base: WalkView, source: WalkView) -> WalkView {
    let hidden = or_else(source.ignore_hidden, base.ignore_hidden);
    let files = or_else(source.ignore_files, base.ignore_files);
    let (dot0, vcs0, global0, parent0) = if source.ignore_files is Some {
        (None, None, None, None)
    } else {
        (base.ignore_dot, base.ignore_vcs, base.ignore_global, base.ignore_parent)
    };
    let dot = or_else(source.ignore_dot, dot0);
    let vcs = or_else(source.ignore_vcs, vcs0);
    let global1 = if source.ignore_vcs is Some {
        None
    } else {
        global0
    };
    let global = or_else(source.ignore_global, global1);
    let parent = or_else(source.ignore_parent, parent0);
    WalkView {
        extend_exclude: base.extend_exclude + source.extend_exclude,
        ignore_hidden: hidden,
        ignore_files: files,
        ignore_dot: dot,
        ignore_vcs: vcs,
        ignore_global: global,
        ignore_parent: parent,
    }
}

/// Append copies of `src` to `dst`.
pub fn extend_strings(dst: &mut Vec<String>, src: &Vec<String>)
    ensures
        final(dst)@ == old(dst)@ + src@,
        strings_view(final(dst)@) == strings_view(old(dst)@) + strings_view(src@),
{
    let mut i: usize = 0;
    while i < src.len()
        invariant
            i <= src@.len(),
            dst@ =~= old(dst)@ + src@.take(i as int),
        decreases src@.len() - i,
    {
        dst.push(src[i].clone());
        i = i + 1;
    }
    assert(src@.take(i as int) =~= src@);
    assert(strings_view(dst@) =~= strings_view(old(dst)@) + strings_view(src@));
}

fn clone_opt(o: &Option<bool>) -> (r: Option<bool>)
    ensures
        r == *o,
{
    match o {
        Some(b) => Some(*b),
        None => None,
    }
}

impl Walk {
    pub fn default() -> (r: Walk)
        ensures
            r@ == empty_walk(),
    {
        let r = Walk {
            extend_exclude: Vec::new(),
            ignore_hidden: None,
            ignore_files: None,
            ignore_dot: None,
            ignore_vcs: None,
            ignore_global: None,
            ignore_parent: None,
        };
        assert(r@.extend_exclude =~= Seq::<Seq<char>>::empty());
        r
    }

    /// Everything respected and nothing excluded.
    pub fn from_defaults() -> (r: Walk)
        ensures
            r@ == (WalkView {
                extend_exclude: seq![],
                ignore_hidden: Some(true),
                ignore_files: Some(true),
                ignore_dot: Some(true),
                ignore_vcs: Some(true),
                ignore_global: Some(true),
                ignore_parent: Some(true),
            }),
    {
        let empty = Walk::default();
        let r = Walk {
            extend_exclude: Vec::new(),
            ignore_hidden: Some(empty.ignore_hidden()),
            ignore_files: Some(true),
            ignore_dot: Some(empty.ignore_dot()),
            ignore_vcs: Some(empty.ignore_vcs()),
            ignore_global: Some(empty.ignore_global()),
            ignore_parent: Some(empty.ignore_parent()),
        };
        assert(r@.extend_exclude =~= Seq::<Seq<char>>::empty());
        r
    }

    /// Override these settings with those that `source` sets.
    pub fn update(&mut self, source: &Walk)
        ensures
            final(self)@ == spec_walk_update(old(self)@, source@),
    {
        extend_strings(&mut self.extend_exclude, &source.extend_exclude);
        if let Some(source) = source.ignore_hidden {
            self.ignore_hidden = Some(source);
        }
        if let Some(source) = source.ignore_files {
            self.ignore_files = Some(source);
            self.ignore_dot = None;
            self.ignore_vcs = None;
            self.ignore_global = None;
            self.ignore_parent = None;
        }
        if let Some(source) = source.ignore_dot {
            self.ignore_dot = Some(source);
        }
        if let Some(source) = source.ignore_vcs {
            self.ignore_vcs = Some(source);
            self.ignore_global = None;
        }
        if let Some(source) = source.ignore_global {
            self.ignore_global = Some(source);
        }
        if let Some(source) = source.ignore_parent {
            self.ignore_parent = Some(source);
        }
        assert(self@ =~= spec_walk_update(old(self)@, source@));
    }

    pub fn extend_exclude(&self) -> (r: &[String])
        ensures
            r@ == self.extend_exclude@,
    {
        self.extend_exclude.as_slice()
    }

    pub fn ignore_hidden(&self) -> (r: bool)
        ensures
            r == unwrap_or(self.ignore_hidden, true),
    {
        match self.ignore_hidden {
            Some(b) => b,
            None => true,
        }
    }

    pub fn ignore_dot(&self) -> (r: bool)
        ensures
            r == unwrap_or(or_else(self.ignore_dot, self.ignore_files), true),
    {
        match or(clone_opt(&self.ignore_dot), clone_opt(&self.ignore_files)) {
            Some(b) => b,
            None => true,
        }
    }

    pub fn ignore_vcs(&self) -> (r: bool)
        ensures
            r == unwrap_or(or_else(self.ignore_vcs, self.ignore_files), true),
    {
        match or(clone_opt(&self.ignore_vcs), clone_opt(&self.ignore_files)) {
            Some(b) => b,
            None => true,
        }
    }

    pub fn ignore_global(&self) -> (r: bool)
        ensures
            r == unwrap_or(
                or_else(or_else(self.ignore_global, self.ignore_vcs), self.ignore_files),
                true,
            ),
    {
        match or(or(clone_opt(&self.ignore_global), clone_opt(&self.ignore_vcs)), clone_opt(&self.ignore_files)) {
            Some(b) => b,
            None => true,
        }
    }

    pub fn ignore_parent(&self) -> (r: bool)
        ensures
            r == unwrap_or(or_else(self.ignore_parent, self.ignore_files), true),
    {
        match or(clone_opt(&self.ignore_parent), clone_opt(&self.ignore_files)) {
            Some(b) => b,
            None => true,
        }
    }
}

fn or(a: Option<bool>, b: Option<bool>) -> (r: Option<bool>)
    ensures
        r == or_else(a, b),
{
    match a {
        Some(x) => Some(x),
        None => b,
    }
}

/// Updating with settings that set nothing leaves the settings as they were.
pub proof fn lemma_walk_update_from_nothing(base: WalkView)
    ensures
        spec_walk_update(base, empty_walk()) == base,
{
    assert(base.extend_exclude + Seq::<Seq<char>>::empty() =~= base.extend_exclude);
}

/// Updating settings that set nothing gives the source's settings.
pub proof fn lemma_walk_update_of_nothing(source: WalkView)
    ensures
        spec_walk_update(empty_walk(), source) == source,
{
    assert(Seq::<Seq<char>>::empty() + source.extend_exclude =~= source.extend_exclude);
}

/// Settings for tokenizing.
#[derive(Debug, Clone, Copy, PartialEq, Eq, Structural)]
pub struct TokenizerConfig {
    /// Allow unicode characters in identifiers (and not just ASCII)
    pub unicode: Option<bool>,
    /// Do not check identifiers that appear to be hexadecimal values.
    pub ignore_hex: Option<bool>,
    /// Allow identifiers to start with digits, in addition to letters.
    pub identifier_leading_digits: Option<bool>,
}

pub open spec fn empty_tokenizer_config() -> TokenizerConfig {
    TokenizerConfig { unicode: None, ignore_hex: None, identifier_leading_digits: None }
}

/// `base` overridden by what `source` sets.
pub open spec fn spec_tokenizer_update(base: TokenizerConfig, source: TokenizerConfig) -> TokenizerConfig {
    TokenizerConfig {
        unicode: or_else(source.unicode, base.unicode),
        ignore_hex: or_else(source.ignore_hex, base.ignore_hex),
        identifier_leading_digits: or_else(
            source.identifier_leading_digits,
            base.identifier_leading_digits,
        ),
    }
}

impl TokenizerConfig {
    pub fn default() -> (r: TokenizerConfig)
        ensures
            r == empty_tokenizer_config(),
    {
        TokenizerConfig { unicode: None, ignore_hex: None, identifier_leading_digits: None }
    }

    /// Unicode identifiers, hexadecimal numbers ignored, no leading digits.
    pub fn from_defaults() -> (r: TokenizerConfig)
        ensures
            r == (TokenizerConfig {
                unicode: Some(true),
                ignore_hex: Some(true),
                identifier_leading_digits: Some(false),
            }),
    {
        let empty = TokenizerConfig::default();
        TokenizerConfig {
            unicode: Some(empty.unicode()),
            ignore_hex: Some(empty.ignore_hex()),
            identifier_leading_digits: Some(empty.identifier_leading_digits()),
        }
    }

    /// Override these settings with those that `source` sets.
    pub fn update(&mut self, source: &TokenizerConfig)
        ensures
            *final(self) == spec_tokenizer_update(*old(self), *source),
    {
        if let Some(source) = source.unicode {
            self.unicode = Some(source);
        }
        if let Some(source) = source.ignore_hex {
            self.ignore_hex = Some(source);
        }
        if let Some(source) = source.identifier_leading_digits {
            self.identifier_leading_digits = Some(source);
        }
    }

    pub fn unicode(&self) -> (r: bool)
        ensures
            r == unwrap_or(self.unicode, true),
    {
        match self.unicode {
            Some(b) => b,
            None => true,
        }
    }

    pub fn ignore_hex(&self) -> (r: bool)
        ensures
            r == unwrap_or(self.ignore_hex, true),
    {
        match self.ignore_hex {
            Some(b) => b,
            None => true,
        }
    }

    pub fn identifier_leading_digits(&self) -> (r: bool)
        ensures
            r == unwrap_or(self.identifier_leading_digits, false),
    {
        match self.identifier_leading_digits {
            Some(b) => b,
            None => false,
        }
    }
}

/// Updating with tokenizer settings that set nothing changes nothing, and updating settings
/// that set nothing gives the source's.
pub proof fn lemma_tokenizer_update_identity(c: TokenizerConfig)
    ensures
        spec_tokenizer_update(c, empty_tokenizer_config()) == c,
        spec_tokenizer_update(empty_tokenizer_config(), c) == c,
{
}

/// Later tokenizer updates win: updating by `a` then by `b` is updating by `a` overridden
/// by `b`.
pub proof fn lemma_tokenizer_update_compose(c: TokenizerConfig, a: TokenizerConfig, b: TokenizerConfig)
    ensures
        spec_tokenizer_update(spec_tokenizer_update(c, a), b) == spec_tokenizer_update(
            c,
            spec_tokenizer_update(a, b),
        ),
{
}

/// The locale to suggest corrections for.
#[derive(Debug, Clone, Copy, PartialEq, Eq, Structural)]
pub enum Locale {
    En,
    EnUs,
    EnGb,
    EnCa,
    EnAu,
}

/// The default locale is plain English, with no variant preferred.
impl Default for Locale {
    fn default() -> (r: Locale)
        ensures
            r == Locale::En,
    {
        Locale::En
    }
}

pub open spec fn spec_locale_category(l: Locale) -> Option<Category> {
    match l {
        Locale::En => None,
        Locale::EnUs => Some(Category::American),
        Locale::EnGb => Some(Category::BritishIse),
        Locale::EnCa => Some(Category::Canadian),
        Locale::EnAu => Some(Category::Australian),
    }
}

/// The spelling of each locale.
pub open spec fn spec_locale_name(l: Locale) -> Seq<char> {
    match l {
        Locale::En => "en"@,
        Locale::EnUs => "en-us"@,
        Locale::EnGb => "en-gb"@,
        Locale::EnCa => "en-ca"@,
        Locale::EnAu => "en-au"@,
    }
}

/// The locale a name spells, if any.
pub open spec fn spec_locale_of(s: Seq<char>) -> Option<Locale> {
    if s == spec_locale_name(Locale::En) {
        Some(Locale::En)
    } else if s == spec_locale_name(Locale::EnUs) {
        Some(Locale::EnUs)
    } else if s == spec_locale_name(Locale::EnGb) {
        Some(Locale::EnGb)
    } else if s == spec_locale_name(Locale::EnCa) {
        Some(Locale::EnCa)
    } else if s == spec_locale_name(Locale::EnAu) {
        Some(Locale::EnAu)
    } else {
        None
    }
}

/// Reading back the name of a locale gives the locale.
pub proof fn lemma_locale_name_round_trip(l: Locale)
    ensures
        spec_locale_of(spec_locale_name(l)) == Some(l),
{
    reveal_strlit("en");
    reveal_strlit("en-us");
    reveal_strlit("en-gb");
    reveal_strlit("en-ca");
    reveal_strlit("en-au");
    assert("en"@.len() == 2 && "en-us"@.len() == 5 && "en-gb"@.len() == 5 && "en-ca"@.len() == 5
        && "en-au"@.len() == 5);
    assert("en-us"@[3] == 'u' && "en-gb"@[3] == 'g' && "en-ca"@[3] == 'c' && "en-au"@[3] == 'a');
}

impl Locale {
    pub fn default() -> (r: Locale)
        ensures
            r == Locale::En,
    {
        Locale::En
    }

    /// The VarCon category of the locale; plain English has none.
    pub fn category(self) -> (r: Option<Category>)
        ensures
            r == spec_locale_category(self),
    {
        match self {
            Locale::En => None,
            Locale::EnUs => Some(Category::American),
            Locale::EnGb => Some(Category::BritishIse),
            Locale::EnCa => Some(Category::Canadian),
            Locale::EnAu => Some(Category::Australian),
        }
    }

    /// The names of the locales.
    pub fn variants() -> (r: [&'static str; 5])
        ensures
            r@.map_values(|s: &str| s@) == seq![
                spec_locale_name(Locale::En),
                spec_locale_name(Locale::EnUs),
                spec_locale_name(Locale::EnGb),
                spec_locale_name(Locale::EnCa),
                spec_locale_name(Locale::EnAu),
            ],
    {
        let r = ["en", "en-us", "en-gb", "en-ca", "en-au"];
        assert(r@.map_values(|s: &str| s@) =~= seq![
            spec_locale_name(Locale::En),
            spec_locale_name(Locale::EnUs),
            spec_locale_name(Locale::EnGb),
            spec_locale_name(Locale::EnCa),
            spec_locale_name(Locale::EnAu),
        ]);
        r
    }

    /// The locale of a name, or the list of valid names.
    pub fn from_str(s: &str) -> (r: Result<Locale, String>)
        ensures
            match spec_locale_of(s@) {
                Some(l) => r == Ok::<Locale, String>(l),
                None => r matches Err(e) && e@ == "valid values: en, en-us, en-gb, en-ca, en-au"@,
            },
    {
        proof {
            reveal_strlit("en");
            reveal_strlit("en-us");
            reveal_strlit("en-gb");
            reveal_strlit("en-ca");
            reveal_strlit("en-au");
        }
        if str_eq(s, "en") {
            Ok(Locale::En)
        } else if str_eq(s, "en-us") {
            Ok(Locale::EnUs)
        } else if str_eq(s, "en-gb") {
            Ok(Locale::EnGb)
        } else if str_eq(s, "en-ca") {
            Ok(Locale::EnCa)
        } else if str_eq(s, "en-au") {
            Ok(Locale::EnAu)
        } else {
            Err(String::from_str("valid values: en, en-us, en-gb, en-ca, en-au"))
        }
    }

    /// The name of the locale.
    pub fn as_str(self) -> (r: &'static str)
        ensures
            r@ == spec_locale_name(self),
    {
        match self {
            Locale::En => "en",
            Locale::EnUs => "en-us",
            Locale::EnGb => "en-gb",
            Locale::EnCa => "en-ca",
            Locale::EnAu => "en-au",
        }
    }
}


// ---------------------------------------------------------------------------------------
// Dictionary and engine settings
// ---------------------------------------------------------------------------------------

/// The map that a list of `(key, value)` pairs describes: later pairs replace earlier ones
/// with the same key.
pub open spec fn pairs_map(s: Seq<(String, String)>) -> Map<Seq<char>, Seq<char>>
    decreases s.len(),
{
    if s.len() == 0 {
        Map::empty()
    } else {
        pairs_map(s.drop_last()).insert(s.last().0@, s.last().1@)
    }
}

/// Appending pairs extends a map, the appended ones taking precedence.
pub proof fn lemma_pairs_map_concat(a: Seq<(String, String)>, b: Seq<(String, String)>)
    ensures
        pairs_map(a + b) == pairs_map(a).union_prefer_right(pairs_map(b)),
    decreases b.len(),
{
    if b.len() == 0 {
        assert(a + b =~= a);
        assert(pairs_map(a).union_prefer_right(Map::empty()) =~= pairs_map(a));
    } else {
        assert((a + b).drop_last() =~= a + b.drop_last());
        lemma_pairs_map_concat(a, b.drop_last());
        assert(pairs_map(a + b) =~= pairs_map(a).union_prefer_right(pairs_map(b)));
    }
}

/// Append copies of the pairs `src` to `dst`.
pub fn extend_pairs(dst: &mut Vec<(String, String)>, src: &Vec<(String, String)>)
    ensures
        final(dst)@ == old(dst)@ + src@,
        pairs_map(final(dst)@) == pairs_map(old(dst)@).union_prefer_right(pairs_map(src@)),
{
    let mut i: usize = 0;
    while i < src.len()
        invariant
            i <= src@.len(),
            dst@ =~= old(dst)@ + src@.take(i as int),
        decreases src@.len() - i,
    {
        let (k, v) = &src[i];
        dst.push((k.clone(), v.clone()));
        i = i + 1;
    }
    assert(src@.take(i as int) =~= src@);
    proof {
        lemma_pairs_map_concat(old(dst)@, src@);
    }
}

/// Settings for dictionaries.
#[derive(Debug, PartialEq, Eq)]
pub struct DictConfig {
    pub locale: Option<Locale>,
    /// Patterns of identifiers that are always valid.
    pub extend_ignore_identifiers_re: Vec<String>,
    /// Identifiers and their corrections (themselves when valid, empty when invalid).
    pub extend_identifiers: Vec<(String, String)>,
    /// Words and their corrections (themselves when valid, empty when invalid).
    pub extend_words: Vec<(String, String)>,
}

#[verifier::ext_equal]
pub struct DictConfigView {
    pub locale: Option<Locale>,
    pub extend_ignore_identifiers_re: Seq<Seq<char>>,
    pub extend_identifiers: Map<Seq<char>, Seq<char>>,
    pub extend_words: Map<Seq<char>, Seq<char>>,
}

impl View for DictConfig {
    type V = DictConfigView;

    open spec fn view(&self) -> DictConfigView {
        DictConfigView {
            locale: self.locale,
            extend_ignore_identifiers_re: strings_view(self.extend_ignore_identifiers_re@),
            extend_identifiers: pairs_map(self.extend_identifiers@),
            extend_words: pairs_map(self.extend_words@),
        }
    }
}

pub open spec fn empty_dict_config() -> DictConfigView {
    DictConfigView {
        locale: None,
        extend_ignore_identifiers_re: seq![],
        extend_identifiers: Map::empty(),
        extend_words: Map::empty(),
    }
}

/// `base` overridden and extended by `source`.
pub open spec fn spec_dict_update(base: DictConfigView, source: DictConfigView) -> DictConfigView {
    DictConfigView {
        locale: match source.locale {
            Some(l) => Some(l),
            None => base.locale,
        },
        extend_ignore_identifiers_re: base.extend_ignore_identifiers_re
            + source.extend_ignore_identifiers_re,
        extend_identifiers: base.extend_identifiers.union_prefer_right(source.extend_identifiers),
        extend_words: base.extend_words.union_prefer_right(source.extend_words),
    }
}

impl DictConfig {
    pub fn default() -> (r: DictConfig)
        ensures
            r@ == empty_dict_config(),
    {
        let r = DictConfig {
            locale: None,
            extend_ignore_identifiers_re: Vec::new(),
            extend_identifiers: Vec::new(),
            extend_words: Vec::new(),
        };
        assert(r@ =~= empty_dict_config());
        r
    }

    /// Plain English and no additions.
    pub fn from_defaults() -> (r: DictConfig)
        ensures
            r@ == (DictConfigView { locale: Some(Locale::En), ..empty_dict_config() }),
    {
        let empty = DictConfig::default();
        let r = DictConfig {
            locale: Some(empty.locale()),
            extend_ignore_identifiers_re: Vec::new(),
            extend_identifiers: Vec::new(),
            extend_words: Vec::new(),
        };
        assert(r@ =~= (DictConfigView { locale: Some(Locale::En), ..empty_dict_config() }));
        r
    }

    /// Override and extend these settings with `source`.
    pub fn update(&mut self, source: &DictConfig)
        ensures
            final(self)@ == spec_dict_update(old(self)@, source@),
    {
        if let Some(source) = source.locale {
            self.locale = Some(source);
        }
        extend_strings(&mut self.extend_ignore_identifiers_re, &source.extend_ignore_identifiers_re);
        extend_pairs(&mut self.extend_identifiers, &source.extend_identifiers);
        extend_pairs(&mut self.extend_words, &source.extend_words);
        assert(self@ =~= spec_dict_update(old(self)@, source@));
    }

    pub fn locale(&self) -> (r: Locale)
        ensures
            r == match self.locale {
                Some(l) => l,
                None => Locale::En,
            },
    {
        match self.locale {
            Some(l) => l,
            None => Locale::default(),
        }
    }

    pub fn extend_ignore_identifiers_re(&self) -> (r: &[String])
        ensures
            r@ == self.extend_ignore_identifiers_re@,
    {
        self.extend_ignore_identifiers_re.as_slice()
    }

    pub fn extend_identifiers(&self) -> (r: &[(String, String)])
        ensures
            r@ == self.extend_identifiers@,
    {
        self.extend_identifiers.as_slice()
    }

    pub fn extend_words(&self) -> (r: &[(String, String)])
        ensures
            r@ == self.extend_words@,
    {
        self.extend_words.as_slice()
    }
}

/// Updating with dictionary settings that set nothing changes nothing, and updating
/// settings that set nothing gives the source's.
pub proof fn lemma_dict_update_identity(c: DictConfigView)
    ensures
        spec_dict_update(c, empty_dict_config()) == c,
        spec_dict_update(empty_dict_config(), c) == c,
{
    assert(spec_dict_update(c, empty_dict_config()) =~= c);
    assert(spec_dict_update(empty_dict_config(), c) =~= c);
}

/// Settings for checking files.
#[derive(Debug, PartialEq, Eq)]
pub struct EngineConfig {
    /// Check binary files.
    pub binary: Option<bool>,
    /// Verifying spelling in file names.
    pub check_filename: Option<bool>,
    /// Verifying spelling in files.
    pub check_file: Option<bool>,
    pub tokenizer: Option<TokenizerConfig>,
    pub dict: Option<DictConfig>,
    /// Patterns of regions that are not checked.
    pub extend_ignore_re: Vec<String>,
}

#[verifier::ext_equal]
pub struct EngineConfigView {
    pub binary: Option<bool>,
    pub check_filename: Option<bool>,
    pub check_file: Option<bool>,
    pub tokenizer: Option<TokenizerConfig>,
    pub dict: Option<DictConfigView>,
    pub extend_ignore_re: Seq<Seq<char>>,
}

impl View for EngineConfig {
    type V = EngineConfigView;

    open spec fn view(&self) -> EngineConfigView {
        EngineConfigView {
            binary: self.binary,
            check_filename: self.check_filename,
            check_file: self.check_file,
            tokenizer: self.tokenizer,
            dict: match &self.dict {
                Some(d) => Some(d@),
                None => None,
            },
            extend_ignore_re: strings_view(self.extend_ignore_re@),
        }
    }
}

pub open spec fn empty_engine_config() -> EngineConfigView {
    EngineConfigView {
        binary: None,
        check_filename: None,
        check_file: None,
        tokenizer: None,
        dict: None,
        extend_ignore_re: seq![],
    }
}

/// `base` overridden and extended by `source`; nested settings are updated in turn.
pub open spec fn spec_engine_update(base: EngineConfigView, source: EngineConfigView) -> EngineConfigView {
    EngineConfigView {
        binary: or_else(source.binary, base.binary),
        check_filename: or_else(source.check_filename, base.check_filename),
        check_file: or_else(source.check_file, base.check_file),
        tokenizer: match source.tokenizer {
            Some(t) => Some(
                spec_tokenizer_update(
                    match base.tokenizer {
                        Some(b) => b,
                        None => empty_tokenizer_config(),
                    },
                    t,
                ),
            ),
            None => base.tokenizer,
        },
        dict: match source.dict {
            Some(d) => Some(
                spec_dict_update(
                    match base.dict {
                        Some(b) => b,
                        None => empty_dict_config(),
                    },
                    d,
                ),
            ),
            None => base.dict,
        },
        extend_ignore_re: base.extend_ignore_re + source.extend_ignore_re,
    }
}

impl EngineConfig {
    pub fn default() -> (r: EngineConfig)
        ensures
            r@ == empty_engine_config(),
    {
        let r = EngineConfig {
            binary: None,
            check_filename: None,
            check_file: None,
            tokenizer: None,
            dict: None,
            extend_ignore_re: Vec::new(),
        };
        assert(r@ =~= empty_engine_config());
        r
    }

    /// Text files only, names and contents checked, with the default tokenizer and
    /// dictionary settings.
    pub fn from_defaults() -> (r: EngineConfig)
        ensures
            r@ == (EngineConfigView {
                binary: Some(false),
                check_filename: Some(true),
                check_file: Some(true),
                tokenizer: Some(
                    TokenizerConfig {
                        unicode: Some(true),
                        ignore_hex: Some(true),
                        identifier_leading_digits: Some(false),
                    },
                ),
                dict: Some(DictConfigView { locale: Some(Locale::En), ..empty_dict_config() }),
                extend_ignore_re: seq![],
            }),
    {
        let empty = EngineConfig::default();
        let r = EngineConfig {
            binary: Some(empty.binary()),
            check_filename: Some(empty.check_filename()),
            check_file: Some(empty.check_file()),
            tokenizer: Some(TokenizerConfig::from_defaults()),
            dict: Some(DictConfig::from_defaults()),
            extend_ignore_re: Vec::new(),
        };
        assert(r@.extend_ignore_re =~= Seq::<Seq<char>>::empty());
        r
    }

    /// Override and extend these settings with `source`.
    pub fn update(&mut self, source: &EngineConfig)
        ensures
            final(self)@ == spec_engine_update(old(self)@, source@),
    {
        if let Some(source) = source.binary {
            self.binary = Some(source);
        }
        if let Some(source) = source.check_filename {
            self.check_filename = Some(source);
        }
        if let Some(source) = source.check_file {
            self.check_file = Some(source);
        }
        if let Some(source) = &source.tokenizer {
            let mut tokenizer = match self.tokenizer {
                Some(t) => t,
                None => TokenizerConfig::default(),
            };
            tokenizer.update(source);
            self.tokenizer = Some(tokenizer);
        }
        if let Some(source) = &source.dict {
            let mut dict = None;
            std::mem::swap(&mut dict, &mut self.dict);
            let mut dict = match dict {
                Some(d) => d,
                None => DictConfig::default(),
            };
            dict.update(source);
            self.dict = Some(dict);
        }
        extend_strings(&mut self.extend_ignore_re, &source.extend_ignore_re);
        assert(self@ =~= spec_engine_update(old(self)@, source@));
    }

    pub fn binary(&self) -> (r: bool)
        ensures
            r == unwrap_or(self.binary, false),
    {
        match self.binary {
            Some(b) => b,
            None => false,
        }
    }

    pub fn check_filename(&self) -> (r: bool)
        ensures
            r == unwrap_or(self.check_filename, true),
    {
        match self.check_filename {
            Some(b) => b,
            None => true,
        }
    }

    pub fn check_file(&self) -> (r: bool)
        ensures
            r == unwrap_or(self.check_file, true),
    {
        match self.check_file {
            Some(b) => b,
            None => true,
        }
    }

    pub fn extend_ignore_re(&self) -> (r: &[String])
        ensures
            r@ == self.extend_ignore_re@,
    {
        self.extend_ignore_re.as_slice()
    }
}

/// Updating with engine settings that set nothing changes nothing, and updating settings
/// that set nothing gives the source's.
pub proof fn lemma_engine_update_identity(c: EngineConfigView)
    ensures
        spec_engine_update(c, empty_engine_config()) == c,
        spec_engine_update(empty_engine_config(), c) == c,
{
    match c.dict {
        Some(d) => {
            lemma_dict_update_identity(d);
        },
        None => {},
    }
    assert(spec_engine_update(c, empty_engine_config()) =~= c);
    assert(spec_engine_update(empty_engine_config(), c) =~= c);
}

// ---------------------------------------------------------------------------------------
// Per file type settings, and all settings
// ---------------------------------------------------------------------------------------

/// Settings for the files of one type: more globs for the type, and engine settings.
#[derive(Debug, PartialEq, Eq)]
pub struct GlobEngineConfig {
    pub extend_glob: Vec<String>,
    pub engine: EngineConfig,
}

#[verifier::ext_equal]
pub struct GlobEngineConfigView {
    pub extend_glob: Seq<Seq<char>>,
    pub engine: EngineConfigView,
}

impl View for GlobEngineConfig {
    type V = GlobEngineConfigView;

    open spec fn view(&self) -> GlobEngineConfigView {
        GlobEngineConfigView { extend_glob: strings_view(self.extend_glob@), engine: self.engine@ }
    }
}

pub open spec fn empty_glob_config() -> GlobEngineConfigView {
    GlobEngineConfigView { extend_glob: seq![], engine: empty_engine_config() }
}

/// Globs accumulate; engine settings are updated.
pub open spec fn spec_glob_update(base: GlobEngineConfigView, source: GlobEngineConfigView) -> GlobEngineConfigView {
    GlobEngineConfigView {
        extend_glob: base.extend_glob + source.extend_glob,
        engine: spec_engine_update(base.engine, source.engine),
    }
}

impl GlobEngineConfig {
    pub fn default() -> (r: GlobEngineConfig)
        ensures
            r@ == empty_glob_config(),
    {
        let r = GlobEngineConfig { extend_glob: Vec::new(), engine: EngineConfig::default() };
        assert(r@ =~= empty_glob_config());
        r
    }

    /// Extend the globs and update the engine settings with `source`.
    pub fn update(&mut self, source: &GlobEngineConfig)
        ensures
            final(self)@ == spec_glob_update(old(self)@, source@),
    {
        extend_strings(&mut self.extend_glob, &source.extend_glob);
        self.engine.update(&source.engine);
        assert(self@ =~= spec_glob_update(old(self)@, source@));
    }
}

pub proof fn lemma_glob_update_identity(c: GlobEngineConfigView)
    ensures
        spec_glob_update(c, empty_glob_config()) == c,
        spec_glob_update(empty_glob_config(), c) == c,
{
    lemma_engine_update_identity(c.engine);
    assert(spec_glob_update(c, empty_glob_config()) =~= c);
    assert(spec_glob_update(empty_glob_config(), c) =~= c);
}

/// The entries' type names are distinct.
pub open spec fn distinct_names(v: Seq<(String, GlobEngineConfig)>) -> bool {
    forall|i: int, j: int| 0 <= i < j < v.len() ==> (#[trigger] v[i]).0@ != (#[trigger] v[j]).0@
}

/// The settings of each type name.
pub open spec fn type_map(v: Seq<(String, GlobEngineConfig)>) -> Map<Seq<char>, GlobEngineConfigView> {
    Map::new(
        |k: Seq<char>| exists|i: int| 0 <= i < v.len() && (#[trigger] v[i]).0@ == k,
        |k: Seq<char>| v[choose|i: int| 0 <= i < v.len() && (#[trigger] v[i]).0@ == k].1@,
    )
}

/// The settings of an entry are those of its name.
pub proof fn lemma_type_map_entry(v: Seq<(String, GlobEngineConfig)>, i: int)
    requires
        distinct_names(v),
        0 <= i < v.len(),
    ensures
        type_map(v).dom().contains(v[i].0@),
        type_map(v)[v[i].0@] == v[i].1@,
{
    let k = v[i].0@;
    assert(exists|j: int| 0 <= j < v.len() && (#[trigger] v[j]).0@ == k);
    let j = choose|j: int| 0 <= j < v.len() && (#[trigger] v[j]).0@ == k;
    if j != i {
        if j < i {
            assert(v[j].0@ != v[i].0@);
        } else {
            assert(v[i].0@ != v[j].0@);
        }
    }
}

/// Settings per file type, by type name.
#[derive(Debug, PartialEq, Eq)]
pub struct TypeEngineConfig {
    patterns: Vec<(String, GlobEngineConfig)>,
}

impl View for TypeEngineConfig {
    type V = Map<Seq<char>, GlobEngineConfigView>;

    closed spec fn view(&self) -> Map<Seq<char>, GlobEngineConfigView> {
        type_map(self.patterns@)
    }
}

/// Each type that `source` sets is updated from what the base had (or nothing); the other
/// types keep their settings.
pub open spec fn spec_type_update(
    base: Map<Seq<char>, GlobEngineConfigView>,
    source: Map<Seq<char>, GlobEngineConfigView>,
) -> Map<Seq<char>, GlobEngineConfigView> {
    Map::new(
        |k: Seq<char>| base.dom().contains(k) || source.dom().contains(k),
        |k: Seq<char>|
            if source.dom().contains(k) {
                spec_glob_update(
                    if base.dom().contains(k) {
                        base[k]
                    } else {
                        empty_glob_config()
                    },
                    source[k],
                )
            } else {
                base[k]
            },
    )
}

impl TypeEngineConfig {
    #[verifier::type_invariant]
    spec fn names_distinct(&self) -> bool {
        distinct_names(self.patterns@)
    }

    pub fn default() -> (r: TypeEngineConfig)
        ensures
            r@ == Map::<Seq<char>, GlobEngineConfigView>::empty(),
    {
        let r = TypeEngineConfig { patterns: Vec::new() };
        assert(r@ =~= Map::<Seq<char>, GlobEngineConfigView>::empty());
        r
    }

    fn find(&self, name: &str) -> (r: Option<usize>)
        ensures
            match r {
                Some(i) => i < self.patterns@.len() && self.patterns@[i as int].0@ == name@,
                None => !self@.dom().contains(name@),
            },
    {
        let mut i: usize = 0;
        while i < self.patterns.len()
            invariant
                i <= self.patterns@.len(),
                forall|j: int| 0 <= j < i ==> (#[trigger] self.patterns@[j]).0@ != name@,
            decreases self.patterns@.len() - i,
        {
            if str_eq(self.patterns[i].0.as_str(), name) {
                return Some(i);
            }
            i = i + 1;
        }
        None
    }

    /// Each type with its settings, each name once.
    pub fn entries(&self) -> (r: &Vec<(String, GlobEngineConfig)>)
        ensures
            distinct_names(r@),
            type_map(r@) == self@,
    {
        proof {
            use_type_invariant(self);
        }
        &self.patterns
    }

    /// The settings of a type.
    pub fn get(&self, name: &str) -> (r: Option<&GlobEngineConfig>)
        ensures
            match r {
                Some(g) => self@.dom().contains(name@) && self@[name@] == g@,
                None => !self@.dom().contains(name@),
            },
    {
        proof {
            use_type_invariant(self);
        }
        match self.find(name) {
            Some(i) => {
                proof {
                    lemma_type_map_entry(self.patterns@, i as int);
                }
                Some(&self.patterns[i].1)
            },
            None => None,
        }
    }

    /// Remove the settings of a type, giving them back.
    fn take_entry(&mut self, name: &str) -> (r: Option<GlobEngineConfig>)
        ensures
            final(self)@ == old(self)@.remove(name@),
            match r {
                Some(g) => old(self)@.dom().contains(name@) && old(self)@[name@] == g@,
                None => !old(self)@.dom().contains(name@),
            },
    {
        proof {
            use_type_invariant(&*self);
        }
        match self.find(name) {
            None => {
                assert(self@ =~= self@.remove(name@));
                None
            },
            Some(i) => {
                let ghost v = self.patterns@;
                proof {
                    lemma_type_map_entry(v, i as int);
                }
                let mut patterns = Vec::new();
                std::mem::swap(&mut patterns, &mut self.patterns);
                let (_k, g) = patterns.remove(i);
                let ghost nv = patterns@;
                assert(nv =~= v.remove(i as int));
                assert(distinct_names(nv)) by {
                    assert forall|a: int, b: int| 0 <= a < b < nv.len() implies (#[trigger] nv[a]).0@ != (#[trigger] nv[b]).0@ by {
                        let a0 = if a < i { a } else { a + 1 };
                        let b0 = if b < i { b } else { b + 1 };
                        assert(nv[a] == v[a0] && nv[b] == v[b0]);
                        assert(v[a0].0@ != v[b0].0@);
                    }
                }
                assert(type_map(nv) =~= type_map(v).remove(name@)) by {
                    assert forall|key: Seq<char>| #[trigger] type_map(nv).dom().contains(key) == type_map(v).remove(name@).dom().contains(key) by {
                        if type_map(nv).dom().contains(key) {
                            let j = choose|j: int| 0 <= j < nv.len() && (#[trigger] nv[j]).0@ == key;
                            let j0 = if j < i { j } else { j + 1 };
                            assert(nv[j] == v[j0]);
                            if key == name@ {
                                assert(v[j0].0@ != v[i as int].0@);
                            }
                        }
                        if type_map(v).dom().contains(key) && key != name@ {
                            let j = choose|j: int| 0 <= j < v.len() && (#[trigger] v[j]).0@ == key;
                            assert(j != i);
                            let j1 = if j < i { j } else { j - 1 };
                            assert(nv[j1] == v[j]);
                        }
                    }
                    assert forall|key: Seq<char>| type_map(nv).dom().contains(key) implies #[trigger] type_map(nv)[key] == type_map(v).remove(name@)[key] by {
                        let j = choose|j: int| 0 <= j < nv.len() && (#[trigger] nv[j]).0@ == key;
                        let j0 = if j < i { j } else { j + 1 };
                        assert(nv[j] == v[j0]);
                        lemma_type_map_entry(nv, j);
                        lemma_type_map_entry(v, j0);
                    }
                }
                self.patterns = patterns;
                Some(g)
            },
        }
    }

    /// Add settings for a type that has none.
    fn push_entry(&mut self, name: &str, g: GlobEngineConfig)
        requires
            !old(self)@.dom().contains(name@),
        ensures
            final(self)@ == old(self)@.insert(name@, g@),
    {
        proof {
            use_type_invariant(&*self);
        }
        let ghost v = self.patterns@;
        let ghost gv = g@;
        let mut patterns = Vec::new();
        std::mem::swap(&mut patterns, &mut self.patterns);
        patterns.push((name.to_owned(), g));
        let ghost nv = patterns@;
        assert(distinct_names(nv)) by {
            assert forall|a: int, b: int| 0 <= a < b < nv.len() implies (#[trigger] nv[a]).0@ != (#[trigger] nv[b]).0@ by {
                if b < v.len() {
                    assert(v[a].0@ != v[b].0@);
                } else {
                    assert(nv[a] == v[a]);
                    assert(type_map(v).dom().contains(v[a].0@));
                }
            }
        }
        assert(type_map(nv) =~= type_map(v).insert(name@, gv)) by {
            assert forall|key: Seq<char>| #[trigger] type_map(nv).dom().contains(key) == type_map(v).insert(name@, gv).dom().contains(key) by {
                if type_map(v).dom().contains(key) {
                    let j = choose|j: int| 0 <= j < v.len() && (#[trigger] v[j]).0@ == key;
                    assert(nv[j].0@ == key);
                }
                if key == name@ {
                    assert(nv[v.len() as int].0@ == key);
                }
                if type_map(nv).dom().contains(key) {
                    let j = choose|j: int| 0 <= j < nv.len() && (#[trigger] nv[j]).0@ == key;
                    if j < v.len() {
                        assert(v[j].0@ == key);
                    }
                }
            }
            assert forall|key: Seq<char>| type_map(nv).dom().contains(key) implies #[trigger] type_map(nv)[key] == type_map(v).insert(name@, gv)[key] by {
                let j = choose|j: int| 0 <= j < nv.len() && (#[trigger] nv[j]).0@ == key;
                lemma_type_map_entry(nv, j);
                if j < v.len() {
                    lemma_type_map_entry(v, j);
                }
            }
        }
        self.patterns = patterns;
    }

    /// Update the settings of a type (from nothing when it has none) with `source`.
    pub fn update_type(&mut self, name: &str, source: &GlobEngineConfig)
        ensures
            final(self)@ == old(self)@.insert(
                name@,
                spec_glob_update(
                    if old(self)@.dom().contains(name@) {
                        old(self)@[name@]
                    } else {
                        empty_glob_config()
                    },
                    source@,
                ),
            ),
    {
        let ghost before = self@;
        let mut g = match self.take_entry(name) {
            Some(g) => g,
            None => GlobEngineConfig::default(),
        };
        g.update(source);
        self.push_entry(name, g);
        assert(self@ =~= before.insert(
            name@,
            spec_glob_update(
                if before.dom().contains(name@) {
                    before[name@]
                } else {
                    empty_glob_config()
                },
                source@,
            ),
        ));
    }

    /// Set the settings of a type.
    pub fn insert(&mut self, name: &str, config: GlobEngineConfig)
        ensures
            final(self)@ == old(self)@.insert(name@, config@),
    {
        let ghost before = self@;
        let _ = self.take_entry(name);
        self.push_entry(name, config);
        assert(self@ =~= before.insert(name@, config@));
    }
}

/// `base` with the entries `v[..k]` of a distinct-named list applied as updates.
pub open spec fn partial_type_update(
    base: Map<Seq<char>, GlobEngineConfigView>,
    v: Seq<(String, GlobEngineConfig)>,
    k: int,
) -> Map<Seq<char>, GlobEngineConfigView> {
    spec_type_update(base, type_map(v.take(k)))
}

proof fn lemma_partial_step(
    base: Map<Seq<char>, GlobEngineConfigView>,
    v: Seq<(String, GlobEngineConfig)>,
    k: int,
)
    requires
        distinct_names(v),
        0 <= k < v.len(),
    ensures
        partial_type_update(base, v, k + 1) == partial_type_update(base, v, k).insert(
            v[k].0@,
            spec_glob_update(
                if partial_type_update(base, v, k).dom().contains(v[k].0@) {
                    partial_type_update(base, v, k)[v[k].0@]
                } else {
                    empty_glob_config()
                },
                v[k].1@,
            ),
        ),
{
    let a = v.take(k);
    let b = v.take(k + 1);
    assert(distinct_names(a));
    assert(distinct_names(b));
    let name = v[k].0@;
    assert(!type_map(a).dom().contains(name)) by {
        if type_map(a).dom().contains(name) {
            let j = choose|j: int| 0 <= j < a.len() && (#[trigger] a[j]).0@ == name;
            assert(v[j].0@ != v[k].0@);
        }
    }
    assert(b[k] == v[k]);
    lemma_type_map_entry(b, k);
    assert forall|key: Seq<char>| key != name implies (#[trigger] type_map(b).dom().contains(key)) == type_map(a).dom().contains(key) && (type_map(b).dom().contains(key) ==> type_map(b)[key] == type_map(a)[key]) by {
        if type_map(a).dom().contains(key) {
            let j = choose|j: int| 0 <= j < a.len() && (#[trigger] a[j]).0@ == key;
            assert(b[j] == a[j]);
            lemma_type_map_entry(a, j);
            lemma_type_map_entry(b, j);
        }
        if type_map(b).dom().contains(key) {
            let j = choose|j: int| 0 <= j < b.len() && (#[trigger] b[j]).0@ == key;
            if j < k {
                assert(a[j] == b[j]);
            }
        }
    }
    assert(partial_type_update(base, v, k + 1) =~= partial_type_update(base, v, k).insert(
        name,
        spec_glob_update(
            if partial_type_update(base, v, k).dom().contains(name) {
                partial_type_update(base, v, k)[name]
            } else {
                empty_glob_config()
            },
            v[k].1@,
        ),
    ));
}

impl TypeEngineConfig {
    /// Update the settings of each type that `source` sets.
    pub fn update(&mut self, source: &TypeEngineConfig)
        ensures
            final(self)@ == spec_type_update(old(self)@, source@),
    {
        proof {
            use_type_invariant(source);
        }
        let ghost base = self@;
        let ghost v = source.patterns@;
        let mut k: usize = 0;
        assert(type_map(v.take(0)) =~= Map::<Seq<char>, GlobEngineConfigView>::empty());
        assert(spec_type_update(base, Map::empty()) =~= base);
        while k < source.patterns.len()
            invariant
                k <= v.len(),
                v == source.patterns@,
                distinct_names(v),
                self@ == partial_type_update(base, v, k as int),
            decreases v.len() - k,
        {
            let entry = &source.patterns[k];
            proof {
                lemma_partial_step(base, v, k as int);
            }
            self.update_type(entry.0.as_str(), &entry.1);
            k = k + 1;
        }
        assert(v.take(v.len() as int) =~= v);
    }

}

// ---------------------------------------------------------------------------------------
// Default settings per file type
// ---------------------------------------------------------------------------------------

/// Files of this type are not checked.
pub open spec fn no_check_glob() -> GlobEngineConfigView {
    GlobEngineConfigView {
        extend_glob: seq![],
        engine: EngineConfigView { check_file: Some(false), ..empty_engine_config() },
    }
}

/// Each term stands for itself: it is valid.
pub open spec fn identity_map(terms: Seq<Seq<char>>) -> Map<Seq<char>, Seq<char>> {
    Map::new(|k: Seq<char>| terms.contains(k), |k: Seq<char>| k)
}

/// These identifiers and words are valid in files of this type.
pub open spec fn ignore_glob(idents: Seq<Seq<char>>, words: Seq<Seq<char>>) -> GlobEngineConfigView {
    GlobEngineConfigView {
        extend_glob: seq![],
        engine: EngineConfigView {
            dict: Some(
                DictConfigView {
                    extend_identifiers: identity_map(idents),
                    extend_words: identity_map(words),
                    ..empty_dict_config()
                },
            ),
            ..empty_engine_config()
        },
    }
}

/// The default settings per file type: certificates and lock files are not checked, and
/// some terms are valid in some languages.
pub open spec fn type_defaults() -> Map<Seq<char>, GlobEngineConfigView> {
    Map::<Seq<char>, GlobEngineConfigView>::empty().insert("cert"@, no_check_glob()).insert("lock"@, no_check_glob()).insert("cpp"@, ignore_glob(seq!["countr_one"@], seq![])).insert("css"@, ignore_glob(seq!["nd"@, "wdth"@], seq![])).insert("go"@, ignore_glob(seq!["flate"@], seq![])).insert("html"@, ignore_glob(seq!["wdth"@], seq![])).insert("jl"@, ignore_glob(seq![], seq!["egal"@, "egals"@, "modul"@, "usig"@])).insert("less"@, ignore_glob(seq!["wdth"@], seq![])).insert("man"@, ignore_glob(seq!["Nd"@], seq![])).insert("py"@, ignore_glob(seq!["NDArray"@, "EOFError"@, "arange"@], seq![])).insert("rust"@, ignore_glob(seq!["flate2"@], seq!["ser"@])).insert("sass"@, ignore_glob(seq!["wdth"@], seq![])).insert("sh"@, ignore_glob(seq!["ot"@, "stap"@], seq![])).insert("stylus"@, ignore_glob(seq!["wdth"@], seq![])).insert("vimscript"@, ignore_glob(seq!["windo"@], seq![]))
}

/// Each term paired with itself.
fn identity_pairs(terms: &[&str]) -> (r: Vec<(String, String)>)
    ensures
        pairs_map(r@) == identity_map(terms@.map_values(|t: &str| t@)),
{
    let ghost tv = terms@.map_values(|t: &str| t@);
    let mut r: Vec<(String, String)> = Vec::new();
    let mut i: usize = 0;
    while i < terms.len()
        invariant
            i <= terms@.len(),
            tv == terms@.map_values(|t: &str| t@),
            pairs_map(r@) == identity_map(tv.take(i as int)),
        decreases terms@.len() - i,
    {
        let t = terms[i];
        let ghost before = r@;
        r.push((t.to_owned(), t.to_owned()));
        assert(r@.drop_last() == before);
        assert(tv[i as int] == t@);
        assert(identity_map(tv.take(i + 1)) =~= identity_map(tv.take(i as int)).insert(t@, t@)) by {
            assert(tv.take(i + 1) =~= tv.take(i as int).push(t@));
            assert forall|k: Seq<char>| #[trigger] tv.take(i + 1).contains(k) == (tv.take(i as int).contains(k) || k == t@) by {
                if tv.take(i + 1).contains(k) {
                    let j = choose|j: int| 0 <= j < tv.take(i + 1).len() && #[trigger] tv.take(i + 1)[j] == k;
                    if j < i {
                        assert(tv.take(i as int)[j] == k);
                    }
                }
                if tv.take(i as int).contains(k) {
                    let j = choose|j: int| 0 <= j < tv.take(i as int).len() && #[trigger] tv.take(i as int)[j] == k;
                    assert(tv.take(i + 1)[j] == k);
                }
                if k == t@ {
                    assert(tv.take(i + 1)[i as int] == k);
                }
            }
        }
        i = i + 1;
    }
    assert(tv.take(terms@.len() as int) =~= tv);
    r
}

fn no_check_glob_config() -> (r: GlobEngineConfig)
    ensures
        r@ == no_check_glob(),
{
    let mut engine = EngineConfig::default();
    engine.check_file = Some(false);
    let r = GlobEngineConfig { extend_glob: Vec::new(), engine };
    assert(r@ =~= no_check_glob());
    r
}

fn ignore_glob_config(idents: &[&str], words: &[&str]) -> (r: GlobEngineConfig)
    ensures
        r@ == ignore_glob(idents@.map_values(|t: &str| t@), words@.map_values(|t: &str| t@)),
{
    let mut dict = DictConfig::default();
    dict.extend_identifiers = identity_pairs(idents);
    dict.extend_words = identity_pairs(words);
    let mut engine = EngineConfig::default();
    engine.dict = Some(dict);
    let r = GlobEngineConfig { extend_glob: Vec::new(), engine };
    assert(r@ =~= ignore_glob(idents@.map_values(|t: &str| t@), words@.map_values(|t: &str| t@)));
    r
}

impl TypeEngineConfig {
    /// The default settings per file type.
    pub fn from_defaults() -> (r: TypeEngineConfig)
        ensures
            r@ == type_defaults(),
    {
        let mut r = TypeEngineConfig::default();
        r.insert("cert", no_check_glob_config());
        r.insert("lock", no_check_glob_config());
        let idents: [&str; 1] = ["countr_one"];
        let words: [&str; 0] = [];
        assert(idents@.map_values(|t: &str| t@) =~= seq!["countr_one"@]);
        assert(words@.map_values(|t: &str| t@) =~= seq![]);
        r.insert("cpp", ignore_glob_config(&idents, &words));
        let idents: [&str; 2] = ["nd", "wdth"];
        let words: [&str; 0] = [];
        assert(idents@.map_values(|t: &str| t@) =~= seq!["nd"@, "wdth"@]);
        assert(words@.map_values(|t: &str| t@) =~= seq![]);
        r.insert("css", ignore_glob_config(&idents, &words));
        let idents: [&str; 1] = ["flate"];
        let words: [&str; 0] = [];
        assert(idents@.map_values(|t: &str| t@) =~= seq!["flate"@]);
        assert(words@.map_values(|t: &str| t@) =~= seq![]);
        r.insert("go", ignore_glob_config(&idents, &words));
        let idents: [&str; 1] = ["wdth"];
        let words: [&str; 0] = [];
        assert(idents@.map_values(|t: &str| t@) =~= seq!["wdth"@]);
        assert(words@.map_values(|t: &str| t@) =~= seq![]);
        r.insert("html", ignore_glob_config(&idents, &words));
        let idents: [&str; 0] = [];
        let words: [&str; 4] = ["egal", "egals", "modul", "usig"];
        assert(idents@.map_values(|t: &str| t@) =~= seq![]);
        assert(words@.map_values(|t: &str| t@) =~= seq!["egal"@, "egals"@, "modul"@, "usig"@]);
        r.insert("jl", ignore_glob_config(&idents, &words));
        let idents: [&str; 1] = ["wdth"];
        let words: [&str; 0] = [];
        assert(idents@.map_values(|t: &str| t@) =~= seq!["wdth"@]);
        assert(words@.map_values(|t: &str| t@) =~= seq![]);
        r.insert("less", ignore_glob_config(&idents, &words));
        let idents: [&str; 1] = ["Nd"];
        let words: [&str; 0] = [];
        assert(idents@.map_values(|t: &str| t@) =~= seq!["Nd"@]);
        assert(words@.map_values(|t: &str| t@) =~= seq![]);
        r.insert("man", ignore_glob_config(&idents, &words));
        let idents: [&str; 3] = ["NDArray", "EOFError", "arange"];
        let words: [&str; 0] = [];
        assert(idents@.map_values(|t: &str| t@) =~= seq!["NDArray"@, "EOFError"@, "arange"@]);
        assert(words@.map_values(|t: &str| t@) =~= seq![]);
        r.insert("py", ignore_glob_config(&idents, &words));
        let idents: [&str; 1] = ["flate2"];
        let words: [&str; 1] = ["ser"];
        assert(idents@.map_values(|t: &str| t@) =~= seq!["flate2"@]);
        assert(words@.map_values(|t: &str| t@) =~= seq!["ser"@]);
        r.insert("rust", ignore_glob_config(&idents, &words));
        let idents: [&str; 1] = ["wdth"];
        let words: [&str; 0] = [];
        assert(idents@.map_values(|t: &str| t@) =~= seq!["wdth"@]);
        assert(words@.map_values(|t: &str| t@) =~= seq![]);
        r.insert("sass", ignore_glob_config(&idents, &words));
        let idents: [&str; 2] = ["ot", "stap"];
        let words: [&str; 0] = [];
        assert(idents@.map_values(|t: &str| t@) =~= seq!["ot"@, "stap"@]);
        assert(words@.map_values(|t: &str| t@) =~= seq![]);
        r.insert("sh", ignore_glob_config(&idents, &words));
        let idents: [&str; 1] = ["wdth"];
        let words: [&str; 0] = [];
        assert(idents@.map_values(|t: &str| t@) =~= seq!["wdth"@]);
        assert(words@.map_values(|t: &str| t@) =~= seq![]);
        r.insert("stylus", ignore_glob_config(&idents, &words));
        let idents: [&str; 1] = ["windo"];
        let words: [&str; 0] = [];
        assert(idents@.map_values(|t: &str| t@) =~= seq!["windo"@]);
        assert(words@.map_values(|t: &str| t@) =~= seq![]);
        r.insert("vimscript", ignore_glob_config(&idents, &words));
        r
    }

    /// The default settings per file type updated with these, as `(type, settings)` pairs.
    pub fn patterns(&self) -> (r: TypeEngineConfig)
        ensures
            r@ == spec_type_update(type_defaults(), self@),
    {
        let mut engine = TypeEngineConfig::from_defaults();
        engine.update(self);
        engine
    }
}

/// Updating with type settings that set nothing changes nothing, and updating type
/// settings that set nothing gives the source's.
pub proof fn lemma_type_update_identity(c: Map<Seq<char>, GlobEngineConfigView>)
    ensures
        spec_type_update(c, Map::empty()) == c,
        spec_type_update(Map::empty(), c) == c,
{
    assert(spec_type_update(c, Map::empty()) =~= c);
    assert forall|k: Seq<char>| c.dom().contains(k) implies #[trigger] spec_type_update(Map::empty(), c)[k] == c[k] by {
        lemma_glob_update_identity(c[k]);
    }
    assert(spec_type_update(Map::empty(), c) =~= c);
}

// ---------------------------------------------------------------------------------------
// All settings
// ---------------------------------------------------------------------------------------

/// All settings: walking, the default engine, per file type, and overrides.
#[derive(Debug, PartialEq, Eq)]
pub struct Config {
    pub files: Walk,
    pub default: EngineConfig,
    pub type_: TypeEngineConfig,
    pub overrides: EngineConfig,
}

#[verifier::ext_equal]
pub struct ConfigView {
    pub files: WalkView,
    pub default: EngineConfigView,
    pub type_: Map<Seq<char>, GlobEngineConfigView>,
    pub overrides: EngineConfigView,
}

impl View for Config {
    type V = ConfigView;

    open spec fn view(&self) -> ConfigView {
        ConfigView {
            files: self.files@,
            default: self.default@,
            type_: self.type_@,
            overrides: self.overrides@,
        }
    }
}

pub open spec fn empty_config() -> ConfigView {
    ConfigView {
        files: empty_walk(),
        default: empty_engine_config(),
        type_: Map::empty(),
        overrides: empty_engine_config(),
    }
}

/// Each part updated with the same part of `source`.
pub open spec fn spec_config_update(base: ConfigView, source: ConfigView) -> ConfigView {
    ConfigView {
        files: spec_walk_update(base.files, source.files),
        default: spec_engine_update(base.default, source.default),
        type_: spec_type_update(base.type_, source.type_),
        overrides: spec_engine_update(base.overrides, source.overrides),
    }
}

impl Config {
    pub fn default() -> (r: Config)
        ensures
            r@ == empty_config(),
    {
        Config {
            files: Walk::default(),
            default: EngineConfig::default(),
            type_: TypeEngineConfig::default(),
            overrides: EngineConfig::default(),
        }
    }

    /// The default settings everywhere, and no overrides.
    pub fn from_defaults() -> (r: Config)
        ensures
            r@.files == (WalkView {
                extend_exclude: seq![],
                ignore_hidden: Some(true),
                ignore_files: Some(true),
                ignore_dot: Some(true),
                ignore_vcs: Some(true),
                ignore_global: Some(true),
                ignore_parent: Some(true),
            }),
            r@.default == (EngineConfigView {
                binary: Some(false),
                check_filename: Some(true),
                check_file: Some(true),
                tokenizer: Some(
                    TokenizerConfig {
                        unicode: Some(true),
                        ignore_hex: Some(true),
                        identifier_leading_digits: Some(false),
                    },
                ),
                dict: Some(DictConfigView { locale: Some(Locale::En), ..empty_dict_config() }),
                extend_ignore_re: seq![],
            }),
            r@.type_ == type_defaults(),
            r@.overrides == empty_engine_config(),
    {
        Config {
            files: Walk::from_defaults(),
            default: EngineConfig::from_defaults(),
            type_: TypeEngineConfig::from_defaults(),
            overrides: EngineConfig::default(),
        }
    }

    /// Update each part with `source`.
    pub fn update(&mut self, source: &Config)
        ensures
            final(self)@ == spec_config_update(old(self)@, source@),
    {
        self.files.update(&source.files);
        self.default.update(&source.default);
        self.type_.update(&source.type_);
        self.overrides.update(&source.overrides);
    }
}

/// Updating with settings that set nothing changes nothing, and updating settings that
/// set nothing gives the source's.
pub proof fn lemma_config_update_identity(c: ConfigView)
    ensures
        spec_config_update(c, empty_config()) == c,
        spec_config_update(empty_config(), c) == c,
{
    lemma_walk_update_from_nothing(c.files);
    lemma_walk_update_of_nothing(c.files);
    lemma_engine_update_identity(c.default);
    lemma_engine_update_identity(c.overrides);
    lemma_type_update_identity(c.type_);
    assert(spec_config_update(c, empty_config()) =~= c);
    assert(spec_config_update(empty_config(), c) =~= c);
}

// ---------------------------------------------------------------------------------------
// Laws of updating settings
// ---------------------------------------------------------------------------------------

/// A setting after an update: what the source sets wins, and what it leaves unset keeps the
/// base's value.
pub open spec fn source_wins<T>(base: Option<T>, source: Option<T>, result: Option<T>) -> bool {
    &&& (source matches Some(v) ==> result == Some(v))
    &&& (source is None ==> result == base)
}

/// A map of settings after an update: it holds the keys of both, the source's value for a
/// key it sets, the base's for the others.
pub open spec fn map_source_wins<K, V>(base: Map<K, V>, source: Map<K, V>, result: Map<K, V>) -> bool {
    &&& forall|k: K| #[trigger] result.dom().contains(k) <==> base.dom().contains(k) || source.dom().contains(k)
    &&& forall|k: K| #[trigger] source.dom().contains(k) ==> result[k] == source[k]
    &&& forall|k: K| base.dom().contains(k) && !source.dom().contains(k) ==> #[trigger] result[k] == base[k]
}

/// Updating tokenizer settings: each setting the source sets wins, the others are kept.
pub proof fn lemma_tokenizer_update_law(base: TokenizerConfig, source: TokenizerConfig)
    ensures
        source_wins(base.unicode, source.unicode, spec_tokenizer_update(base, source).unicode),
        source_wins(base.ignore_hex, source.ignore_hex, spec_tokenizer_update(base, source).ignore_hex),
        source_wins(
            base.identifier_leading_digits,
            source.identifier_leading_digits,
            spec_tokenizer_update(base, source).identifier_leading_digits,
        ),
{
}

/// Updating dictionary settings: the source's locale wins when set; ignore patterns
/// accumulate, the base's first; identifier and word corrections are merged, the source's
/// winning for a term both name.
pub proof fn lemma_dict_update_law(base: DictConfigView, source: DictConfigView)
    ensures
        source_wins(base.locale, source.locale, spec_dict_update(base, source).locale),
        spec_dict_update(base, source).extend_ignore_identifiers_re == base.extend_ignore_identifiers_re
            + source.extend_ignore_identifiers_re,
        map_source_wins(
            base.extend_identifiers,
            source.extend_identifiers,
            spec_dict_update(base, source).extend_identifiers,
        ),
        map_source_wins(base.extend_words, source.extend_words, spec_dict_update(base, source).extend_words),
{
}

/// Updating engine settings: each switch the source sets wins over the base (a file that
/// says `check-filename = false` turns the check off whatever the defaults say), the
/// others are kept; ignore patterns accumulate; tokenizer and dictionary settings are
/// updated setting by setting (from nothing when the base has none).
pub proof fn lemma_engine_update_law(base: EngineConfigView, source: EngineConfigView)
    ensures
        ({
            let r = spec_engine_update(base, source);
            &&& source_wins(base.binary, source.binary, r.binary)
            &&& source_wins(base.check_filename, source.check_filename, r.check_filename)
            &&& source_wins(base.check_file, source.check_file, r.check_file)
            &&& r.extend_ignore_re == base.extend_ignore_re + source.extend_ignore_re
            &&& (source.tokenizer is None ==> r.tokenizer == base.tokenizer)
            &&& (source.tokenizer matches Some(t) ==> r.tokenizer matches Some(rt) && {
                let b = match base.tokenizer {
                    Some(b) => b,
                    None => empty_tokenizer_config(),
                };
                &&& source_wins(b.unicode, t.unicode, rt.unicode)
                &&& source_wins(b.ignore_hex, t.ignore_hex, rt.ignore_hex)
                &&& source_wins(b.identifier_leading_digits, t.identifier_leading_digits, rt.identifier_leading_digits)
            })
            &&& (source.dict is None ==> r.dict == base.dict)
            &&& (source.dict matches Some(d) ==> r.dict matches Some(rd) && {
                let b = match base.dict {
                    Some(b) => b,
                    None => empty_dict_config(),
                };
                &&& source_wins(b.locale, d.locale, rd.locale)
                &&& rd.extend_ignore_identifiers_re == b.extend_ignore_identifiers_re + d.extend_ignore_identifiers_re
                &&& map_source_wins(b.extend_identifiers, d.extend_identifiers, rd.extend_identifiers)
                &&& map_source_wins(b.extend_words, d.extend_words, rd.extend_words)
            })
        }),
{
    match source.tokenizer {
        Some(t) => {
            lemma_tokenizer_update_law(
                match base.tokenizer {
                    Some(b) => b,
                    None => empty_tokenizer_config(),
                },
                t,
            );
        },
        None => {},
    }
    match source.dict {
        Some(d) => {
            lemma_dict_update_law(
                match base.dict {
                    Some(b) => b,
                    None => empty_dict_config(),
                },
                d,
            );
        },
        None => {},
    }
}

/// Updating walk settings: each setting the source sets wins; excludes accumulate.  A
/// source that sets `ignore-files` also drops the base's finer ignore settings (dot, vcs,
/// global, parent), and one that sets `ignore-vcs` drops the base's `ignore-global`.
pub proof fn lemma_walk_update_law(base: WalkView, source: WalkView)
    ensures
        ({
            let r = spec_walk_update(base, source);
            &&& r.extend_exclude == base.extend_exclude + source.extend_exclude
            &&& source_wins(base.ignore_hidden, source.ignore_hidden, r.ignore_hidden)
            &&& source_wins(base.ignore_files, source.ignore_files, r.ignore_files)
            &&& source_wins(
                if source.ignore_files is Some { None } else { base.ignore_dot },
                source.ignore_dot,
                r.ignore_dot,
            )
            &&& source_wins(
                if source.ignore_files is Some { None } else { base.ignore_vcs },
                source.ignore_vcs,
                r.ignore_vcs,
            )
            &&& source_wins(
                if source.ignore_files is Some || source.ignore_vcs is Some { None } else { base.ignore_global },
                source.ignore_global,
                r.ignore_global,
            )
            &&& source_wins(
                if source.ignore_files is Some { None } else { base.ignore_parent },
                source.ignore_parent,
                r.ignore_parent,
            )
        }),
{
}

/// Updating per-type settings: every type of either side is there; a type only the base
/// names keeps its settings; a type the source names gets the base's globs (none when the
/// base lacks the type) followed by the source's, and engine settings updated by the
/// source's.
pub proof fn lemma_type_update_law(
    base: Map<Seq<char>, GlobEngineConfigView>,
    source: Map<Seq<char>, GlobEngineConfigView>,
)
    ensures
        forall|k: Seq<char>| #[trigger] spec_type_update(base, source).dom().contains(k)
            <==> base.dom().contains(k) || source.dom().contains(k),
        forall|k: Seq<char>|
            base.dom().contains(k) && !source.dom().contains(k) ==> #[trigger] spec_type_update(base, source)[k]
                == base[k],
        forall|k: Seq<char>|
            #[trigger] source.dom().contains(k) ==> {
                let b = if base.dom().contains(k) {
                    base[k]
                } else {
                    empty_glob_config()
                };
                &&& spec_type_update(base, source)[k].extend_glob == b.extend_glob + source[k].extend_glob
                &&& spec_type_update(base, source)[k].engine == spec_engine_update(b.engine, source[k].engine)
            },
{
}

} // verus!
