use pokemon_assistant::paths::{cache_file_path, data_file_path, join_path};
use pokemon_assistant::text::{capitalize, compare_chars, normalize_name, trim, NameOrder};

#[test]
fn capitalize_uppercases_first_letter() {
    assert_eq!(capitalize("pikachu"), "Pikachu");
    assert_eq!(capitalize("mr-mime"), "Mr-mime");
}

#[test]
fn capitalize_keeps_empty_and_non_letters() {
    assert_eq!(capitalize(""), "");
    assert_eq!(capitalize("25"), "25");
    assert_eq!(capitalize("Eevee"), "Eevee");
}

#[test]
fn capitalize_expands_special_uppercase() {
    // 'ß' uppercases to two characters.
    assert_eq!(capitalize("ßa"), "SSa");
}

#[test]
fn normalize_name_joins_words_with_dashes() {
    assert_eq!(normalize_name("  Mr   Mime "), "mr-mime");
    assert_eq!(normalize_name("Tapu\tKoko\n"), "tapu-koko");
}

#[test]
fn normalize_name_lowercases() {
    assert_eq!(normalize_name("PIKACHU"), "pikachu");
    assert_eq!(normalize_name("Thunder Punch"), "thunder-punch");
}

#[test]
fn normalize_name_blank_is_empty() {
    assert_eq!(normalize_name(""), "");
    assert_eq!(normalize_name("   \t "), "");
}

#[test]
fn trim_drops_outer_whitespace() {
    assert_eq!(trim("  Sparky \n"), "Sparky");
    assert_eq!(trim("a b"), "a b");
    assert_eq!(trim("   "), "");
    assert_eq!(trim(""), "");
}

#[test]
fn compare_chars_orders_like_str() {
    let v = |s: &str| s.chars().collect::<Vec<char>>();
    assert_eq!(compare_chars(&v("fire"), &v("water")), NameOrder::Less);
    assert_eq!(compare_chars(&v("water"), &v("fire")), NameOrder::Greater);
    assert_eq!(compare_chars(&v("fire"), &v("fire")), NameOrder::Equal);
    assert_eq!(compare_chars(&v("fir"), &v("fire")), NameOrder::Less);
    assert_eq!(compare_chars(&v(""), &v("a")), NameOrder::Less);
    assert_eq!(compare_chars(&v("é"), &v("z")), NameOrder::Greater);
}

#[test]
fn cache_file_path_nests_category_and_key() {
    assert_eq!(cache_file_path("/cache", "pokemon", "pikachu"), "/cache/pokemon/pikachu.json");
    assert_eq!(cache_file_path("/cache/", "types", "fire"), "/cache/types/fire.json");
}

#[test]
fn data_file_path_joins_file_name() {
    assert_eq!(data_file_path("/data", "team.json"), "/data/team.json");
    assert_eq!(data_file_path("", "team.json"), "team.json");
}

#[test]
fn join_path_absolute_part_replaces_base() {
    assert_eq!(join_path("/data", "/etc/x"), "/etc/x");
    assert_eq!(join_path("/data/", "x"), "/data/x");
}

#[test]
fn normalize_name_treats_no_break_space_as_space() {
    assert_eq!(normalize_name("Mr\u{A0}Mime"), "mr-mime");
}

#[test]
fn capitalize_ascii_twice_is_once() {
    for value in ["pikachu", "Ghost", "mr-mime", "", "7up", "a"] {
        let once = capitalize(value);
        assert_eq!(capitalize(&once), once);
        assert_eq!(once.len(), value.len());
    }
    assert_eq!(capitalize("charizard"), "Charizard");
}

#[test]
fn normalize_name_twice_is_once() {
    for value in ["  Mr   Mime  ", "Tapu\tKoko", "ho-oh", "   ", "PIKACHU"] {
        let once = normalize_name(value);
        assert_eq!(normalize_name(&once), once);
    }
    assert_eq!(normalize_name("  Mr   Mime  "), "mr-mime");
}

#[test]
fn normalize_name_splits_on_unicode_spaces() {
    assert_eq!(normalize_name("\u{2003}Mr\u{3000}Mime\u{85}"), "mr-mime");
    assert_eq!(normalize_name("\u{1680}\u{2028}"), "");
}

#[test]
fn normalize_name_non_ascii_word_is_kept() {
    assert_eq!(normalize_name("  Flabébé  Σ "), "flabébé-σ");
    assert_eq!(normalize_name("ΑΣ"), "ας");
}
