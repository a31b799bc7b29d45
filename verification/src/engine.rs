//! The settings that apply to one file, and what the check of that file is built from.

use vstd::prelude::*;

use crate::builtin::{interpreted, tables_usable, vars_view, words_view, BuiltIn, Override, Variants};
use crate::config::{
    empty_engine_config, spec_engine_update, spec_locale_category, spec_type_update,
    type_defaults, unwrap_or, Config, ConfigView, DictConfig, EngineConfig, EngineConfigView, Locale,
};
use crate::dict::strings_view;
use crate::pattern::{compile_all, regex_compiles, Pattern};
use crate::tokens::{Tokenizer, TokenizerBuilder};

verus! {

/// The settings for a file of the given type: the defaults, then those of the type (when
/// the settings know it), then the overrides.
pub open spec fn spec_engine_settings(c: ConfigView, file_type: Option<Seq<char>>) -> EngineConfigView {
    let base = spec_engine_update(empty_engine_config(), c.default);
    let types = spec_type_update(type_defaults(), c.type_);
    let typed = match file_type {
        Some(name) => if types.dom().contains(name) {
            spec_engine_update(base, types[name].engine)
        } else {
            base
        },
        None => base,
    };
    spec_engine_update(typed, c.overrides)
}

/// The settings for a file of the given type.
pub fn engine_settings(config: &Config, file_type: Option<&str>) -> (r: EngineConfig)
    ensures
        r@ == spec_engine_settings(
            config@,
            match file_type {
                Some(n) => Some(n@),
                None => None,
            },
        ),
{
    let mut engine = EngineConfig::default();
    engine.update(&config.default);
    let patterns = config.type_.patterns();
    match file_type {
        Some(name) => match patterns.get(name) {
            Some(settings) => engine.update(&settings.engine),
            None => {},
        },
        None => {},
    }
    engine.update(&config.overrides);
    engine
}

/// Everything the check of one file needs.
pub struct FileEngine {
    pub binary: bool,
    pub check_filenames: bool,
    pub check_files: bool,
    pub tokenizer: Tokenizer,
    pub dict: Override<BuiltIn>,
    pub ignore: Vec<Pattern>,
}

/// `(leading digits, ignore hex)` of the tokenizer that the settings ask for.
pub open spec fn spec_tokenizer_of(e: EngineConfig) -> (bool, bool) {
    match e.tokenizer {
        Some(t) => (unwrap_or(t.identifier_leading_digits, false), unwrap_or(t.ignore_hex, true)),
        None => (false, true),
    }
}

/// Whether every pattern of the texts compiles.
pub open spec fn all_compile(texts: Seq<Seq<char>>) -> bool {
    forall|i: int| 0 <= i < texts.len() ==> regex_compiles(#[trigger] texts[i])
}

proof fn lemma_all_compile_strings(v: Seq<String>)
    ensures
        all_compile(strings_view(v)) <==> forall|i: int| 0 <= i < v.len() ==> regex_compiles(#[trigger] v[i]@),
{
    if all_compile(strings_view(v)) {
        assert forall|i: int| 0 <= i < v.len() implies regex_compiles(#[trigger] v[i]@) by {
            assert(strings_view(v)[i] == v[i]@);
        }
    }
    if forall|i: int| 0 <= i < v.len() ==> regex_compiles(#[trigger] v[i]@) {
        assert forall|i: int| 0 <= i < strings_view(v).len() implies regex_compiles(#[trigger] strings_view(v)[i]) by {
            assert(strings_view(v)[i] == v[i]@);
        }
    }
}

/// The dictionary settings: those given, else the empty ones.
pub open spec fn dict_texts(e: EngineConfig) -> (Option<Locale>, Seq<String>, Seq<(String, String)>, Seq<(String, String)>) {
    match e.dict {
        Some(d) => (d.locale, d.extend_ignore_identifiers_re@, d.extend_identifiers@, d.extend_words@),
        None => (None, seq![], seq![], seq![]),
    }
}

/// The check of one file under the settings: its switches, a tokenizer, the built-in
/// dictionary for the locale (over the given word list and variant table) with the
/// settings' overrides, and the patterns of regions to skip.  It fails when a pattern does
/// not compile.
pub fn file_engine(
    settings: &EngineConfig,
    words: Vec<(String, Vec<String>)>,
    vars: Vec<(String, Variants)>,
) -> (r: Result<FileEngine, String>)
    requires
        tables_usable(words_view(words@), vars_view(vars@)),
    ensures
        r is Ok <==> all_compile(strings_view(dict_texts(*settings).1)) && all_compile(
            settings@.extend_ignore_re,
        ),
        r matches Ok(f) ==> {
            let d = dict_texts(*settings);
            &&& f.binary == unwrap_or(settings.binary, false)
            &&& f.check_filenames == unwrap_or(settings.check_filename, true)
            &&& f.check_files == unwrap_or(settings.check_file, true)
            &&& f.tokenizer@ == spec_tokenizer_of(*settings)
            &&& f.dict@.inner@ == (
                spec_locale_category(
                    match d.0 {
                        Some(l) => l,
                        None => Locale::En,
                    },
                ),
                words_view(words@),
                vars_view(vars@),
            )
            &&& f.dict@.ignored_identifiers == strings_view(d.1)
            &&& f.dict@.identifiers == interpreted(d.2)
            &&& f.dict@.words == interpreted(d.3)
            &&& f.ignore@.map_values(|p: Pattern| p@) == settings@.extend_ignore_re
        },
{
    let mut builder = TokenizerBuilder::new();
    match &settings.tokenizer {
        Some(t) => {
            builder.ignore_hex(t.ignore_hex());
            builder.leading_digits(t.identifier_leading_digits());
        },
        None => {},
    }
    let tokenizer = builder.build();
    let default_dict = DictConfig {
        locale: None,
        extend_ignore_identifiers_re: Vec::new(),
        extend_identifiers: Vec::new(),
        extend_words: Vec::new(),
    };
    let dict_config = match &settings.dict {
        Some(d) => d,
        None => &default_dict,
    };
    assert(dict_config.locale == dict_texts(*settings).0);
    assert(dict_config.extend_ignore_identifiers_re@ =~= dict_texts(*settings).1);
    assert(dict_config.extend_identifiers@ =~= dict_texts(*settings).2);
    assert(dict_config.extend_words@ =~= dict_texts(*settings).3);
    proof {
        lemma_all_compile_strings(dict_config.extend_ignore_identifiers_re@);
        lemma_all_compile_strings(settings.extend_ignore_re@);
    }
    let mut dict = Override::new(BuiltIn::new(dict_config.locale(), words, vars));
    let ignored = match compile_all(&dict_config.extend_ignore_identifiers_re) {
        Ok(ps) => ps,
        Err(e) => {
            return Err(e);
        },
    };
    assert(ignored@.map_values(|p: Pattern| p@) =~= strings_view(dict_config.extend_ignore_identifiers_re@));
    dict.ignored_identifiers(ignored);
    dict.identifiers(&dict_config.extend_identifiers);
    dict.words(&dict_config.extend_words);
    assert(dict@.ignored_identifiers =~= strings_view(dict_texts(*settings).1));
    let ignore = match compile_all(&settings.extend_ignore_re) {
        Ok(ps) => ps,
        Err(e) => {
            return Err(e);
        },
    };
    assert(ignore@.map_values(|p: Pattern| p@) =~= settings@.extend_ignore_re);
    Ok(
        FileEngine {
            binary: settings.binary(),
            check_filenames: settings.check_filename(),
            check_files: settings.check_file(),
            tokenizer,
            dict,
            ignore,
        },
    )
}

} // verus!
