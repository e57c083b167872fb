use lazynb::markup::{extract_tags, extract_wiki_links};

fn lines(s: &[&str]) -> Vec<String> {
    s.iter().map(|l| l.to_string()).collect()
}

#[test]
fn extracts_links_in_order_deduped() {
    let input = lines(&[
        "See [[Architecture]] and [[Roadmap]].",
        "Again [[Architecture]] plus [[Home|the index]].",
    ]);
    assert_eq!(
        extract_wiki_links(&input),
        ["Architecture", "Roadmap", "Home"]
    );
}

#[test]
fn ignores_unterminated_brackets() {
    assert_eq!(extract_wiki_links(&lines(&["a [[ b"])), Vec::<String>::new());
}

#[test]
fn link_targets_are_trimmed_and_blank_ones_skipped() {
    let input = lines(&["[[  Spaced  ]] [[ ]] [[|alias only]] [[a|b|c]]"]);
    assert_eq!(extract_wiki_links(&input), ["Spaced", "a"]);
}

#[test]
fn link_closes_at_first_closing_brackets() {
    let input = lines(&["[[one]]]] [[two [[three]] end"]);
    assert_eq!(extract_wiki_links(&input), ["one", "two [[three"]);
}

#[test]
fn links_keep_unicode_targets() {
    let input = lines(&["→ [[Café ☕]] and [[日本語]]"]);
    assert_eq!(extract_wiki_links(&input), ["Café ☕", "日本語"]);
}

#[test]
fn headings_are_not_tags() {
    let input = lines(&["# Title", "## Sub heading", "Body #real text"]);
    assert_eq!(extract_tags(&input), ["real"]);
}

#[test]
fn tags_are_lowercased_and_deduplicated() {
    let input = lines(&["#Rust and #rust, also (#Notes) [#x_y-z]", "'#quoted' \"#dq\" #RUST"]);
    assert_eq!(extract_tags(&input), ["rust", "notes", "x_y-z", "quoted", "dq"]);
}

#[test]
fn tags_need_a_word_boundary() {
    let input = lines(&["issue#12 a#b #ok #", "##double"]);
    assert_eq!(extract_tags(&input), ["ok"]);
}

#[test]
fn tags_take_unicode_letters() {
    let input = lines(&["#Ünïcode #日本"]);
    assert_eq!(extract_tags(&input), ["ünïcode", "日本"]);
}

#[test]
fn tag_ends_at_a_non_tag_character() {
    let input = lines(&["#one.two #three!"]);
    assert_eq!(extract_tags(&input), ["one", "three"]);
}

#[test]
fn no_lines_no_links_or_tags() {
    let input: Vec<String> = Vec::new();
    assert!(extract_wiki_links(&input).is_empty());
    assert!(extract_tags(&input).is_empty());
}

#[test]
fn each_link_listed_once_law() {
    let input = lines(&["[[A]] [[B]] [[A]]", "[[B|x]] [[C]]"]);
    let out = extract_wiki_links(&input);
    for (i, a) in out.iter().enumerate() {
        assert!(!a.is_empty());
        for b in &out[i + 1..] {
            assert_ne!(a, b);
        }
    }
    assert_eq!(out, ["A", "B", "C"]);
}

#[test]
fn links_of_joined_blocks_law() {
    let a = lines(&["[[X]] and [[Y]]"]);
    let b = lines(&["[[Y]] [[Z]]", "[[X]] [[W|w]]"]);
    let mut ab = a.clone();
    ab.extend(b.clone());
    assert_eq!(extract_wiki_links(&a), ["X", "Y"]);
    assert_eq!(extract_wiki_links(&b), ["Y", "Z", "X", "W"]);
    assert_eq!(extract_wiki_links(&ab), ["X", "Y", "Z", "W"]);
}

#[test]
fn tags_are_never_empty() {
    let t = extract_tags(&lines(&["# Heading", "#a #-x (#B_c) #", "x#no"]));
    assert_eq!(t, ["a", "-x", "b_c"]);
    assert!(t.iter().all(|s| !s.is_empty()));
}
