use bloksel::config::language::LanguageConfig;
use bloksel::ui::translations::{
    check_for_updates, get_translation, get_translation_with_params, init_translations, language_code,
    reload_if_changed, supported_languages, FileTime, LanguageFileEntry, TranslationCache, TranslationError, TranslationFile, TranslationMetadata,
};

fn file(pairs: &[(&str, &str)]) -> TranslationFile {
    TranslationFile {
        translations: pairs.iter().map(|(k, v)| (k.to_string(), v.to_string())).collect(),
        metadata: TranslationMetadata { last_modified: None },
    }
}

fn test_listing(_dir: &str) -> Option<Vec<LanguageFileEntry>> {
    Some(vec![
        LanguageFileEntry {
            file_name: "en.json".to_string(),
            is_file: true,
            content: Some(file(&[
                ("greeting", "Hello"),
                ("welcome", "Welcome, {name}"),
                ("menu.save", "Save"),
                ("menu.save.world", "Save World"),
            ])),
        },
        LanguageFileEntry {
            file_name: "es.json".to_string(),
            is_file: true,
            content: Some(file(&[
                ("greeting", "Hola"),
                ("welcome", "Bienvenido, {name}"),
                ("menu.save", "Guardar"),
                ("menu.save.world", "Guardar Mundo"),
            ])),
        },
    ])
}

fn no_directory(_dir: &str) -> Option<Vec<LanguageFileEntry>> {
    None
}

#[test]
fn test_translation_loading() {
    let mut cache = TranslationCache::new(0);
    init_translations(&mut cache, "assets", &test_listing, 1).unwrap();
    assert_eq!(supported_languages(&cache).len(), 2);

    let mut config = LanguageConfig::default();
    config.preferred = "es".to_string();

    assert_eq!(get_translation(&cache, &config, "greeting").unwrap(), "Hola");

    let params = vec![("name".to_string(), "Juan".to_string())];
    assert_eq!(
        get_translation_with_params(&cache, &config, "welcome", &params).unwrap(),
        "Bienvenido, Juan"
    );
}

#[test]
fn missing_directory_is_a_load_error() {
    let mut cache = TranslationCache::new(0);
    let r = init_translations(&mut cache, "assets", &no_directory, 1);
    assert!(matches!(r, Err(TranslationError::LoadError(_))));
    assert_eq!(supported_languages(&cache).len(), 0);
}

#[test]
fn unknown_key_is_reported() {
    let mut cache = TranslationCache::new(0);
    init_translations(&mut cache, "assets", &test_listing, 1).unwrap();
    let config = LanguageConfig::default();
    assert!(get_translation(&cache, &config, "nothing.here").is_err());
    assert_eq!(get_translation(&cache, &config, "menu.save.world").unwrap(), "Save World");
}

#[test]
fn language_codes_come_from_json_file_names() {
    assert_eq!(language_code("es.json"), Some("es".to_string()));
    assert_eq!(language_code("readme.txt"), None);
}

#[test]
fn parameters_without_placeholder_leave_the_text() {
    let mut cache = TranslationCache::new(0);
    init_translations(&mut cache, "assets", &test_listing, 1).unwrap();
    let config = LanguageConfig::default();
    let params = vec![("other".to_string(), "x".to_string())];
    assert_eq!(
        get_translation_with_params(&cache, &config, "welcome", &params).unwrap(),
        "Welcome, {name}"
    );
}

#[test]
fn parameter_lookup_errors_are_the_plain_lookups() {
    let mut cache = TranslationCache::new(0);
    init_translations(&mut cache, "assets", &test_listing, 1).unwrap();
    let config = LanguageConfig::default();
    let params = vec![("name".to_string(), "Juan".to_string())];
    assert_eq!(
        get_translation_with_params(&cache, &config, "nothing.here", &params),
        get_translation(&cache, &config, "nothing.here")
    );
    let mut french = LanguageConfig::default();
    french.preferred = "fr".to_string();
    assert!(matches!(
        get_translation_with_params(&cache, &french, "welcome", &params),
        Err(TranslationError::UnsupportedLanguage(l)) if l == "fr"
    ));
}

#[test]
fn update_checks_follow_the_file_system() {
    let mut cache = TranslationCache::new(0);
    init_translations(&mut cache, "assets", &test_listing, 1000).unwrap();
    // Neither file is newer than the load: no change.
    assert_eq!(check_for_updates(&cache, &vec![FileTime::At(10), FileTime::Unknown]), Ok(false));
    // A newer file is a change, found before a later unreadable one.
    assert_eq!(check_for_updates(&cache, &vec![FileTime::At(5000), FileTime::Unreadable("gone".to_string())]), Ok(true));
    // An unreadable file before any change is an I/O error.
    assert_eq!(
        check_for_updates(&cache, &vec![FileTime::Unreadable("gone".to_string()), FileTime::At(5000)]),
        Err(TranslationError::IoError("gone".to_string()))
    );
    let r = reload_if_changed(&mut cache, &vec![FileTime::Unreadable("gone".to_string()), FileTime::Unknown], &test_listing, 2000);
    assert!(matches!(r, Err(TranslationError::IoError(_))));
    assert_eq!(supported_languages(&cache).len(), 2);
}

#[test]
fn parameters_fill_only_placeholders() {
    let mut cache = TranslationCache::new(0);
    init_translations(&mut cache, "assets", &test_listing, 1).unwrap();
    let config = LanguageConfig::default();
    assert_eq!(
        get_translation_with_params(&cache, &config, "welcome", &vec![]),
        get_translation(&cache, &config, "welcome")
    );
    let params = vec![("name".to_string(), "Ana".to_string()), ("greeting".to_string(), "x".to_string())];
    assert_eq!(get_translation_with_params(&cache, &config, "greeting", &params), Ok("Hello".to_string()));
    assert_eq!(get_translation_with_params(&cache, &config, "welcome", &params), Ok("Welcome, Ana".to_string()));
}
