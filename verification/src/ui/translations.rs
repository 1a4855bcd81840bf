//! Translations: a cache of translation files by language code, the lookup
//! of a key in the configured language with a fallback, and the filling of
//! `{name}` placeholders.
use vstd::prelude::*;
use vstd::string::*;
use crate::assoc::{assoc, assoc_put, find_key, keys_unique, lemma_assoc_dom, lemma_assoc_unique_at};
use crate::config::language::LanguageConfig;
use crate::text::{chars_of, join_path, path_join, string_of};

verus! {

/// Errors of the translation system.
#[derive(Debug, PartialEq, Eq)]
pub enum TranslationError {
    UnsupportedLanguage(String),
    KeyNotFound(String, String),
    LoadError(String),
    FormatError(String),
    IoError(String),
    PlaceholderError(String),
}

/// Metadata of a translation file: when it was last modified, in seconds
/// since the Unix epoch, if it says.
pub struct TranslationMetadata {
    pub last_modified: Option<u64>,
}

/// A translation file: translations by key.
pub struct TranslationFile {
    pub translations: Vec<(String, String)>,
    pub metadata: TranslationMetadata,
}

/// An entry of the languages directory: its file name, whether it is a
/// file, and its contents when it could be read and parsed.
pub struct LanguageFileEntry {
    pub file_name: String,
    pub is_file: bool,
    pub content: Option<TranslationFile>,
}

/// The loaded translation files by language code, the base path, and when
/// they were loaded (nanoseconds since the Unix epoch).
pub struct TranslationCache {
    translations: Vec<(String, TranslationFile)>,
    base_path: String,
    last_checked: u128,
}

/// The part of a key before its first '.', or the whole key.
pub open spec fn key_domain(key: Seq<char>) -> Seq<char>
    decreases key.len(),
{
    if key.len() == 0 {
        key
    } else if key[0] == '.' {
        Seq::empty()
    } else {
        seq![key[0]] + key_domain(key.skip(1))
    }
}

/// The language of a key: the override of its domain, else the preferred
/// language.
pub open spec fn language_for(config: LanguageConfig, key: Seq<char>) -> Seq<char> {
    let o = assoc(config.overrides@);
    if o.contains_key(key_domain(key)) {
        o[key_domain(key)]@
    } else {
        config.preferred@
    }
}

/// The position of the last '.' in `s`, or -1.
pub open spec fn last_dot(s: Seq<char>) -> int
    decreases s.len(),
{
    if s.len() == 0 {
        -1
    } else if s.last() == '.' {
        s.len() - 1
    } else {
        last_dot(s.drop_last())
    }
}

/// The language code of a file name "<code>.json" with a non-empty code:
/// the name before its last '.', when the extension after it is "json".
pub open spec fn language_code_of(name: Seq<char>) -> Option<Seq<char>> {
    let i = last_dot(name);
    if i > 0 && name.skip(i + 1) == "json"@ {
        Some(name.take(i))
    } else {
        None
    }
}

/// The languages that a directory listing gives: each file "<code>.json"
/// that could be read, by code; a later entry for a code replaces an earlier
/// one.
pub open spec fn languages_from(entries: Seq<LanguageFileEntry>) -> Map<Seq<char>, TranslationFile>
    decreases entries.len(),
{
    if entries.len() == 0 {
        Map::empty()
    } else {
        let e = entries.last();
        let m = languages_from(entries.drop_last());
        match (language_code_of(e.file_name@), e.content) {
            (Some(code), Some(f)) => if e.is_file {
                m.insert(code, f)
            } else {
                m
            },
            _ => m,
        }
    }
}

/// `s` with each occurrence of `pat` replaced by `rep`, left to right,
/// without overlaps.
pub open spec fn replace_all(s: Seq<char>, pat: Seq<char>, rep: Seq<char>) -> Seq<char>
    decreases s.len(),
{
    if s.len() == 0 {
        s
    } else if pat.len() > 0 && s.len() >= pat.len() && s.take(pat.len() as int) == pat {
        rep + replace_all(s.skip(pat.len() as int), pat, rep)
    } else {
        seq![s[0]] + replace_all(s.skip(1), pat, rep)
    }
}

/// The placeholder of a parameter name: the name in braces.
pub open spec fn placeholder(name: Seq<char>) -> Seq<char> {
    seq!['{'] + name + seq!['}']
}

/// `s` with the placeholders of the parameters replaced by their values,
/// parameter by parameter in order.
pub open spec fn fill_params(s: Seq<char>, params: Seq<(String, String)>) -> Seq<char>
    decreases params.len(),
{
    if params.len() == 0 {
        s
    } else {
        replace_all(
            fill_params(s, params.drop_last()),
            placeholder(params.last().0@),
            params.last().1@,
        )
    }
}

/// With no parameters, the parameter lookup gives the plain translation.
pub proof fn lemma_no_params_plain(s: Seq<char>)
    ensures
        fill_params(s, Seq::<(String, String)>::empty()) == s,
{
}

proof fn lemma_replace_without_brace(s: Seq<char>, name: Seq<char>, rep: Seq<char>)
    requires
        forall|i: int| 0 <= i < s.len() ==> s[i] != '{',
    ensures
        replace_all(s, placeholder(name), rep) == s,
    decreases s.len(),
{
    if s.len() > 0 {
        let pat = placeholder(name);
        if s.len() >= pat.len() {
            assert(s.take(pat.len() as int)[0] != pat[0]);
        }
        lemma_replace_without_brace(s.skip(1), name, rep);
        assert(seq![s[0]] + s.skip(1) =~= s);
    }
}

/// A translation with no `{` in it holds no placeholder: whatever the
/// parameters, the parameter lookup gives it unchanged.
pub proof fn lemma_text_without_braces_unchanged(s: Seq<char>, params: Seq<(String, String)>)
    requires
        forall|i: int| 0 <= i < s.len() ==> s[i] != '{',
    ensures
        fill_params(s, params) == s,
    decreases params.len(),
{
    if params.len() > 0 {
        lemma_text_without_braces_unchanged(s, params.drop_last());
        lemma_replace_without_brace(s, params.last().0@, params.last().1@);
    }
}

/// Whether a file changed since it was loaded: its modification time is
/// later than the time it records, or, when it records none, than the time
/// the cache was loaded.
pub open spec fn file_changed(f: TranslationFile, modified: FileTime, last_checked: u128) -> bool {
    match modified {
        FileTime::At(t) => match f.metadata.last_modified {
            Some(secs) => t > secs as int * 1_000_000_000,
            None => t > last_checked,
        },
        _ => false,
    }
}

/// What the file system says of a loaded language's file: its metadata
/// could not be read (with the error's message), it gives no modification
/// time, or it was modified at a time in nanoseconds since the Unix epoch.
#[derive(Debug, Clone)]
pub enum FileTime {
    Unreadable(String),
    Unknown,
    At(u128),
}

/// The outcome of checking the files from the `i`-th on, in the cache's
/// order: the first file whose metadata could not be read gives its error
/// message, the first changed file (see `file_changed`) gives `true`,
/// whichever comes first; else `false`.
pub open spec fn update_check(cache: TranslationCache, times: Seq<FileTime>, i: int) -> Result<bool, Seq<char>>
    decreases times.len() - i,
{
    if i < 0 || i >= times.len() {
        Ok(false)
    } else {
        match times[i] {
            FileTime::Unreadable(m) => Err(m@),
            _ => if file_changed(cache.file_at(i), times[i], cache.loaded_at()) {
                Ok(true)
            } else {
                update_check(cache, times, i + 1)
            },
        }
    }
}

impl TranslationCache {
    /// The loaded translation files, by language code.
    pub closed spec fn files(&self) -> Map<Seq<char>, TranslationFile> {
        assoc(self.translations@)
    }

    /// The language codes of the loaded files, in load order.
    pub closed spec fn codes(&self) -> Seq<Seq<char>> {
        self.translations@.map_values(|e: (String, TranslationFile)| e.0@)
    }

    /// The files, in the order of `codes`.
    pub closed spec fn file_at(&self, i: int) -> TranslationFile {
        self.translations@[i].1
    }

    pub closed spec fn base(&self) -> Seq<char> {
        self.base_path@
    }

    pub closed spec fn loaded_at(&self) -> u128 {
        self.last_checked
    }

    /// Each language code is loaded once.
    pub closed spec fn wf(&self) -> bool {
        keys_unique(self.translations@)
    }

    /// An empty cache, loaded at `now`, with an empty base path.
    pub fn new(now: u128) -> (r: Self)
        ensures
            r.wf(),
            r.files() == Map::<Seq<char>, TranslationFile>::empty(),
            r.codes().len() == 0,
            r.base() == Seq::<char>::empty(),
            r.loaded_at() == now,
    {
        TranslationCache { translations: Vec::new(), base_path: String::new(), last_checked: now }
    }
}

/// The part of a key before its first '.', or the whole key.
pub(crate) fn domain_of(key: &Vec<char>) -> (r: Vec<char>)
    ensures
        r@ == key_domain(key@),
{
    let mut r: Vec<char> = Vec::new();
    let mut i: usize = 0;
    proof {
        assert(key@.skip(0) =~= key@);
        assert(r@ + key_domain(key@) =~= key_domain(key@));
    }
    while i < key.len() && key[i] != '.'
        invariant
            i <= key@.len(),
            forall|j: int| 0 <= j < i ==> key@[j] != '.',
            key_domain(key@) == r@ + key_domain(key@.skip(i as int)),
        decreases key@.len() - i,
    {
        proof {
            assert(key@.skip(i as int).skip(1) =~= key@.skip(i + 1));
            assert(key@.skip(i as int)[0] == key@[i as int]);
        }
        r.push(key[i]);
        i = i + 1;
        proof {
            assert(r@ =~= r@.drop_last() + seq![key@[i - 1]]);
        }
    }
    proof {
        if i < key@.len() {
            assert(key@.skip(i as int)[0] == '.');
        }
        assert(r@ + Seq::<char>::empty() =~= r@);
    }
    r
}

/// The language code of a directory entry's file name (see `language_code_of`).
pub fn language_code(file_name: &str) -> (r: Option<String>)
    ensures
        match language_code_of(file_name@) {
            Some(c) => r matches Some(s) && s@ == c,
            None => r is None,
        },
{
    let cs = chars_of(file_name);
    let mut i: usize = cs.len();
    proof {
        assert(cs@.take(cs@.len() as int) =~= cs@);
    }
    while i > 0 && cs[i - 1] != '.'
        invariant
            i <= cs@.len(),
            last_dot(cs@) == last_dot(cs@.take(i as int)),
        decreases i,
    {
        proof {
            assert(cs@.take(i - 1) =~= cs@.take(i as int).drop_last());
        }
        i = i - 1;
    }
    proof {
        if i > 0 {
            assert(cs@.take(i as int).last() == '.');
        }
        assert(cs@.take(0) =~= Seq::<char>::empty());
    }
    if i <= 1 {
        return None;
    }
    let dot = i - 1;
    proof {
        reveal_strlit("json");
    }
    if cs.len() - i != 4 || cs[i] != 'j' || cs[i + 1] != 's' || cs[i + 2] != 'o' || cs[i + 3] != 'n' {
        proof {
            if cs@.skip(i as int) == "json"@ {
                assert(cs@.skip(i as int).len() == 4);
                assert(cs@.skip(i as int)[0] == cs@[i as int]);
                assert(cs@.skip(i as int)[1] == cs@[i + 1]);
                assert(cs@.skip(i as int)[2] == cs@[i + 2]);
                assert(cs@.skip(i as int)[3] == cs@[i + 3]);
            }
        }
        return None;
    }
    proof {
        assert(cs@.skip(i as int) =~= "json"@);
    }
    let mut code: Vec<char> = Vec::new();
    let mut k: usize = 0;
    while k < dot
        invariant
            dot < cs@.len(),
            k <= dot,
            code@ == cs@.take(k as int),
        decreases dot - k,
    {
        code.push(cs[k]);
        k = k + 1;
        proof {
            assert(code@ =~= cs@.take(k as int));
        }
    }
    Some(string_of(&code))
}

/// The translation of `key`: in the language of its domain (see
/// `language_for`), else in the fallback language. Fails when the language
/// of the key is not loaded, or neither language has the key.
pub fn get_translation(cache: &TranslationCache, config: &LanguageConfig, key: &str) -> (r: Result<
    String,
    TranslationError,
>)
    requires
        cache.wf(),
    ensures
        ({
            let lang = language_for(*config, key@);
            let files = cache.files();
            &&& !files.contains_key(lang) ==> (r matches Err(TranslationError::UnsupportedLanguage(l))
                && l@ == lang)
            &&& files.contains_key(lang) && assoc(files[lang].translations@).contains_key(key@) ==> (r matches Ok(
                v,
            ) && v@ == assoc(files[lang].translations@)[key@]@)
            &&& files.contains_key(lang) && !assoc(files[lang].translations@).contains_key(key@) ==> {
                if fallback_has(cache, *config, key@) {
                    r matches Ok(v) && v@ == assoc(
                        files[config.fallback->Some_0@].translations@,
                    )[key@]@
                } else {
                    r matches Err(TranslationError::KeyNotFound(k, l)) && k@ == key@ && l@ == lang
                }
            }
        }),
{
    let key_chars = chars_of(key);
    let domain = domain_of(&key_chars);
    let lang: &String = match find_key(&config.overrides, &domain) {
        Some(i) => &config.overrides[i].1,
        None => &config.preferred,
    };
    let lang_chars = chars_of(lang.as_str());
    let file = match find_key(&cache.translations, &lang_chars) {
        Some(i) => &cache.translations[i].1,
        None => {
            return Err(TranslationError::UnsupportedLanguage(lang.clone()));
        },
    };
    match find_key(&file.translations, &key_chars) {
        Some(j) => {
            return Ok(file.translations[j].1.clone());
        },
        None => {},
    }
    match &config.fallback {
        Some(fb) => {
            let fb_chars = chars_of(fb.as_str());
            match find_key(&cache.translations, &fb_chars) {
                Some(i) => {
                    let fb_file = &cache.translations[i].1;
                    match find_key(&fb_file.translations, &key_chars) {
                        Some(j) => {
                            return Ok(fb_file.translations[j].1.clone());
                        },
                        None => {},
                    }
                },
                None => {},
            }
        },
        None => {},
    }
    Err(TranslationError::KeyNotFound(string_of(&key_chars), lang.clone()))
}

/// Whether the fallback language is set, loaded, and has the key.
pub open spec fn fallback_has(cache: &TranslationCache, config: LanguageConfig, key: Seq<char>) -> bool {
    match config.fallback {
        Some(fb) => cache.files().contains_key(fb@) && assoc(
            cache.files()[fb@].translations@,
        ).contains_key(key),
        None => false,
    }
}

/// `s` with each occurrence of `pat` replaced by `rep` (see `replace_all`).
fn replace_chars(s: &Vec<char>, pat: &Vec<char>, rep: &Vec<char>) -> (r: Vec<char>)
    requires
        pat@.len() > 0,
    ensures
        r@ == replace_all(s@, pat@, rep@),
{
    let mut out: Vec<char> = Vec::new();
    let mut i: usize = 0;
    proof {
        assert(s@.skip(0) =~= s@);
        assert(out@ + replace_all(s@, pat@, rep@) =~= replace_all(s@, pat@, rep@));
    }
    while i < s.len()
        invariant
            pat@.len() > 0,
            i <= s@.len(),
            out@ + replace_all(s@.skip(i as int), pat@, rep@) == replace_all(s@, pat@, rep@),
        decreases s@.len() - i,
    {
        let ghost rest = s@.skip(i as int);
        let ghost out0 = out@;
        let mut matched = pat.len() <= s.len() - i;
        let mut k: usize = 0;
        let slen = s.len();
        while matched && k < pat.len()
            invariant
                slen == s@.len(),
                i <= s@.len(),
                matched ==> i + pat@.len() <= s@.len(),
                k <= pat@.len(),
                matched ==> forall|j: int| 0 <= j < k ==> s@[i + j] == pat@[j],
                !matched ==> !(i + pat@.len() <= s@.len() && forall|j: int|
                    0 <= j < pat@.len() ==> s@[i + j] == pat@[j]),
            decreases pat@.len() - k,
        {
            if s[i + k] != pat[k] {
                matched = false;
            }
            k = k + 1;
        }
        let ghost pl = pat@.len() as int;
        proof {
            if matched {
                assert(rest.take(pl) =~= pat@);
            } else {
                if rest.len() >= pl && rest.take(pl) == pat@ {
                    assert forall|j: int| 0 <= j < pl implies s@[i + j] == pat@[j] by {
                        assert(rest.take(pl)[j] == s@[i + j]);
                    }
                }
            }
            assert(rest.len() > 0);
        }
        if matched {
            let mut t: usize = 0;
            while t < rep.len()
                invariant
                    t <= rep@.len(),
                    out@ == out0 + rep@.take(t as int),
                decreases rep@.len() - t,
            {
                out.push(rep[t]);
                t = t + 1;
                proof {
                    assert(out@ =~= out0 + rep@.take(t as int));
                }
            }
            proof {
                assert(rep@.take(rep@.len() as int) =~= rep@);
                assert(rest.skip(pl) =~= s@.skip(i + pl));
                assert(replace_all(rest, pat@, rep@) == rep@ + replace_all(rest.skip(pl), pat@, rep@));
                assert(out@ + replace_all(s@.skip(i + pl), pat@, rep@) =~= out0 + replace_all(rest, pat@, rep@));
            }
            i = i + pat.len();
        } else {
            out.push(s[i]);
            proof {
                assert(rest.skip(1) =~= s@.skip(i + 1));
                assert(rest[0] == s@[i as int]);
                assert(replace_all(rest, pat@, rep@) == seq![rest[0]] + replace_all(rest.skip(1), pat@, rep@));
                assert(out@ + replace_all(s@.skip(i + 1), pat@, rep@) =~= out0 + replace_all(rest, pat@, rep@));
            }
            i = i + 1;
        }
    }
    proof {
        assert(s@.skip(s@.len() as int) =~= Seq::<char>::empty());
        assert(out@ + Seq::<char>::empty() =~= out@);
    }
    out
}

/// The translation of `key` (see `get_translation`) with the placeholder
/// `{name}` of each parameter replaced by its value, parameter by parameter
/// in order.
pub fn get_translation_with_params(
    cache: &TranslationCache,
    config: &LanguageConfig,
    key: &str,
    params: &Vec<(String, String)>,
) -> (r: Result<String, TranslationError>)
    requires
        cache.wf(),
    ensures
        match get_translation_spec(cache, *config, key@) {
            Some(t) => r matches Ok(v) && v@ == fill_params(t, params@),
            None => r is Err,
        },
        ({
            let lang = language_for(*config, key@);
            let files = cache.files();
            &&& !files.contains_key(lang) ==> (r matches Err(TranslationError::UnsupportedLanguage(l)) && l@ == lang)
            &&& files.contains_key(lang) && !assoc(files[lang].translations@).contains_key(key@) && !fallback_has(
                cache,
                *config,
                key@,
            ) ==> (r matches Err(TranslationError::KeyNotFound(k, l)) && k@ == key@ && l@ == lang)
        }),
{
    let translation = match get_translation(cache, config, key) {
        Ok(t) => t,
        Err(e) => {
            return Err(e);
        },
    };
    let mut result = chars_of(translation.as_str());
    let mut i: usize = 0;
    while i < params.len()
        invariant
            i <= params@.len(),
            result@ == fill_params(translation@, params@.take(i as int)),
        decreases params@.len() - i,
    {
        let mut pat: Vec<char> = Vec::new();
        pat.push('{');
        let name = chars_of(params[i].0.as_str());
        let mut k: usize = 0;
        while k < name.len()
            invariant
                k <= name@.len(),
                pat@ == seq!['{'] + name@.take(k as int),
            decreases name@.len() - k,
        {
            pat.push(name[k]);
            k = k + 1;
            proof {
                assert(pat@ =~= seq!['{'] + name@.take(k as int));
            }
        }
        pat.push('}');
        proof {
            assert(name@.take(name@.len() as int) =~= name@);
            assert(pat@ =~= placeholder(params@[i as int].0@));
        }
        let value = chars_of(params[i].1.as_str());
        result = replace_chars(&result, &pat, &value);
        proof {
            assert(params@.take(i + 1).drop_last() =~= params@.take(i as int));
        }
        i = i + 1;
    }
    proof {
        assert(params@.take(params@.len() as int) =~= params@);
    }
    Ok(string_of(&result))
}

/// The translation of `key` that `get_translation` gives, if any.
pub open spec fn get_translation_spec(cache: &TranslationCache, config: LanguageConfig, key: Seq<
    char,
>) -> Option<Seq<char>> {
    let lang = language_for(config, key);
    let files = cache.files();
    if !files.contains_key(lang) {
        None
    } else if assoc(files[lang].translations@).contains_key(key) {
        Some(assoc(files[lang].translations@)[key]@)
    } else if fallback_has(cache, config, key) {
        Some(assoc(files[config.fallback->Some_0@].translations@)[key]@)
    } else {
        None
    }
}

/// The codes of the loaded languages, each once.
pub fn supported_languages(cache: &TranslationCache) -> (r: Vec<String>)
    requires
        cache.wf(),
    ensures
        r@.len() == cache.codes().len(),
        forall|i: int| 0 <= i < r@.len() ==> (#[trigger] r@[i])@ == cache.codes()[i],
        forall|i: int| 0 <= i < r@.len() ==> cache.files().contains_key(#[trigger] cache.codes()[i]),
        forall|k: Seq<char>| #[trigger] cache.files().contains_key(k) ==> cache.codes().contains(k),
        cache.codes().no_duplicates(),
{
    let mut r: Vec<String> = Vec::new();
    let mut i: usize = 0;
    while i < cache.translations.len()
        invariant
            i <= cache.translations@.len(),
            r@.len() == i,
            forall|j: int| 0 <= j < i ==> (#[trigger] r@[j])@ == cache.translations@[j].0@,
        decreases cache.translations@.len() - i,
    {
        r.push(cache.translations[i].0.clone());
        i = i + 1;
    }
    proof {
        let s = cache.translations@;
        assert forall|j: int| 0 <= j < r@.len() implies cache.files().contains_key(
            #[trigger] cache.codes()[j],
        ) by {
            lemma_assoc_unique_at(s, j);
        }
        assert forall|k: Seq<char>| #[trigger] cache.files().contains_key(k) implies cache.codes().contains(
            k,
        ) by {
            lemma_assoc_dom(s, k);
            let j = choose|j: int| 0 <= j < s.len() && (#[trigger] s[j]).0@ == k;
            assert(cache.codes()[j] == k);
        }
        assert forall|a: int, b: int| 0 <= a < cache.codes().len() && 0 <= b < cache.codes().len() && a != b implies cache.codes()[a]
            != cache.codes()[b] by {
            if a < b {
                assert(s[a].0@ != s[b].0@);
            } else {
                assert(s[b].0@ != s[a].0@);
            }
        }
    }
    r
}

/// Whether a loaded file changed since it was loaded (see
/// `update_check`); `modified[i]` is what the file system says of the file
/// of the `i`-th code. A file whose metadata cannot be read is an I/O error.
pub fn check_for_updates(cache: &TranslationCache, modified: &Vec<FileTime>) -> (r: Result<bool, TranslationError>)
    requires
        modified@.len() == cache.codes().len(),
    ensures
        match update_check(*cache, modified@, 0) {
            Ok(b) => r == Ok::<bool, TranslationError>(b),
            Err(m) => r matches Err(TranslationError::IoError(e)) && e@ == m,
        },
{
    let mut i: usize = 0;
    while i < modified.len()
        invariant
            modified@.len() == cache.translations@.len(),
            i <= modified@.len(),
            update_check(*cache, modified@, 0) == update_check(*cache, modified@, i as int),
        decreases modified@.len() - i,
    {
        let f = &cache.translations[i].1;
        match &modified[i] {
            FileTime::Unreadable(m) => {
                return Err(TranslationError::IoError(m.clone()));
            },
            FileTime::Unknown => {},
            FileTime::At(t) => {
                let t = *t;
                let changed = match f.metadata.last_modified {
                    Some(secs) => t > (secs as u128) * 1_000_000_000,
                    None => t > cache.last_checked,
                };
                if changed {
                    return Ok(true);
                }
            },
        }
        i = i + 1;
    }
    Ok(false)
}

/// Loads the translation files of the languages directory (the base path
/// joined with "languages") that `read_languages` lists: each file
/// "<code>.json" that could be read replaces the cache's contents, by code.
/// Fails, leaving the cache as it was, when the directory does not exist
/// (`read_languages` gives `None`).
pub fn reload_translations<F: Fn(&str) -> Option<Vec<LanguageFileEntry>>>(
    cache: &mut TranslationCache,
    read_languages: &F,
    now: u128,
) -> (r: Result<(), TranslationError>)
    requires
        old(cache).wf(),
        forall|d: &str| read_languages.requires((d,)),
    ensures
        final(cache).wf(),
        final(cache).base() == old(cache).base(),
        ({
            let dir = path_join(old(cache).base(), "languages"@);
            &&& r is Err ==> (r matches Err(TranslationError::LoadError(m)) && m@
                == "Languages directory not found at "@ + dir) && final(cache).files() == old(cache).files() && final(cache).loaded_at() == old(cache).loaded_at()
            &&& r is Ok ==> exists|d: &str, listing: Vec<LanguageFileEntry>|
                #![trigger read_languages.ensures((d,), Some(listing))]
                d@ == dir && read_languages.ensures((d,), Some(listing)) && final(cache).files()
                    == languages_from(listing@) && final(cache).loaded_at() == now
        }),
{
    let dir = join_path(cache.base_path.as_str(), "languages");
    let listing = match read_languages(dir.as_str()) {
        Some(l) => l,
        None => {
            let mut m = String::from_str("Languages directory not found at ");
            m.append(dir.as_str());
            return Err(TranslationError::LoadError(m));
        },
    };
    let ghost entries = listing@;
    let mut rest = listing;
    let mut translations: Vec<(String, TranslationFile)> = Vec::new();
    let ghost mut i: int = 0;
    while rest.len() > 0
        invariant
            0 <= i <= entries.len(),
            rest@ == entries.skip(i),
            keys_unique(translations@),
            assoc(translations@) == languages_from(entries.take(i)),
        decreases rest@.len(),
    {
        proof {
            assert(entries.take(i + 1).drop_last() =~= entries.take(i));
            assert(entries.take(i + 1).last() == entries[i]);
            assert(rest@[0] == entries[i]);
        }
        let entry = rest.remove(0);
        let LanguageFileEntry { file_name, is_file, content } = entry;
        if is_file {
            match language_code(file_name.as_str()) {
                Some(code) => {
                    match content {
                        Some(f) => {
                            assoc_put(&mut translations, code, f);
                        },
                        None => {},
                    }
                },
                None => {},
            }
        }
        proof {
            i = i + 1;
            assert(rest@ =~= entries.skip(i));
        }
    }
    proof {
        assert(entries.take(entries.len() as int) =~= entries);
    }
    cache.translations = translations;
    cache.last_checked = now;
    Ok(())
}

/// Sets the base path of the translation system and loads its translation
/// files (see `reload_translations`).
pub fn init_translations<F: Fn(&str) -> Option<Vec<LanguageFileEntry>>>(
    cache: &mut TranslationCache,
    base_path: &str,
    read_languages: &F,
    now: u128,
) -> (r: Result<(), TranslationError>)
    requires
        old(cache).wf(),
        forall|d: &str| read_languages.requires((d,)),
    ensures
        final(cache).wf(),
        final(cache).base() == base_path@,
        ({
            let dir = path_join(base_path@, "languages"@);
            &&& r is Err ==> (r matches Err(TranslationError::LoadError(m)) && m@
                == "Languages directory not found at "@ + dir) && final(cache).files() == old(cache).files()
            &&& r is Ok ==> exists|d: &str, listing: Vec<LanguageFileEntry>|
                #![trigger read_languages.ensures((d,), Some(listing))]
                d@ == dir && read_languages.ensures((d,), Some(listing)) && final(cache).files()
                    == languages_from(listing@) && final(cache).loaded_at() == now
        }),
{
    cache.base_path = String::from_str(base_path);
    reload_translations(cache, read_languages, now)
}

/// Reloads the translation files when one of them changed since it was
/// loaded (see `check_for_updates`); says whether it reloaded. An
/// unreadable file's error comes back, the cache untouched.
pub fn reload_if_changed<F: Fn(&str) -> Option<Vec<LanguageFileEntry>>>(
    cache: &mut TranslationCache,
    modified: &Vec<FileTime>,
    read_languages: &F,
    now: u128,
) -> (r: Result<bool, TranslationError>)
    requires
        old(cache).wf(),
        modified@.len() == old(cache).codes().len(),
        forall|d: &str| read_languages.requires((d,)),
    ensures
        final(cache).wf(),
        final(cache).base() == old(cache).base(),
        ({
            let check = update_check(*old(cache), modified@, 0);
            let dir = path_join(old(cache).base(), "languages"@);
            &&& check == Ok::<bool, Seq<char>>(false) ==> r == Ok::<bool, TranslationError>(false) && final(cache).files() == old(cache).files() && final(cache).loaded_at() == old(cache).loaded_at()
            &&& (check matches Err(m) ==> r matches Err(TranslationError::IoError(e)) && e@ == m
                && final(cache).files() == old(cache).files() && final(cache).loaded_at() == old(cache).loaded_at())
            &&& check == Ok::<bool, Seq<char>>(true) ==> (r == Ok::<bool, TranslationError>(true) || (r matches Err(
                TranslationError::LoadError(m),
            ) && m@ == "Languages directory not found at "@ + dir))
            &&& check == Ok::<bool, Seq<char>>(true) && r is Ok ==> exists|d: &str, listing: Vec<LanguageFileEntry>|
                #![trigger read_languages.ensures((d,), Some(listing))]
                d@ == dir && read_languages.ensures((d,), Some(listing)) && final(cache).files()
                    == languages_from(listing@) && final(cache).loaded_at() == now
            &&& r is Err ==> final(cache).files() == old(cache).files()
        }),
{
    match check_for_updates(cache, modified) {
        Err(e) => Err(e),
        Ok(true) => match reload_translations(cache, read_languages, now) {
            Ok(()) => Ok(true),
            Err(e) => Err(e),
        },
        Ok(false) => Ok(false),
    }
}

} // verus!
