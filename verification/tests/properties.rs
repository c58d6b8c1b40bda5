// Scenario tests for the store's documented behaviors, plus the helper
// layers: the tag column codec, tag edits, configuration, rendering and
// formatting.

use stash::article::NewArticle;
use stash::config::{config_get, config_set, Config};
use stash::errors::StashError;
use stash::humanize::humanize_age;
use stash::listing::{parse_sort_field, SortField};
use stash::metadata::fallback_title;
use stash::queries::{self, FlagOp};
use stash::render::{format_id_lines, format_tags_colored, html_escape, parse_output_format, OutputFormat};
use stash::store::open_memory_store;
use stash::strutil::{i64_to_string, parse_i64, u64_to_string};
use stash::tagjson::{decode_tags, decode_tags_or_empty, encode_tags};
use stash::tags::{apply_tag_operations, validate_tag, TagOpsResult};

fn fresh() -> rusqlite::Connection {
    open_memory_store().unwrap()
}

fn saved(hash: &str, url: &str, title: Option<&str>, tags: Vec<&str>) -> NewArticle {
    NewArticle {
        hash: hash.to_string(),
        url: url.to_string(),
        canonical_url: url.to_string(),
        title: title.map(|s| s.to_string()),
        site: None,
        description: None,
        favicon_url: None,
        content_markdown: None,
        tags: tags.iter().map(|s| s.to_string()).collect(),
    }
}

#[test]
fn duplicate_fingerprint_rejected_first_row_stands() {
    let mut conn = fresh();
    queries::insert_article(&mut conn, saved("h1", "https://a.example", Some("First"), vec![]))
        .unwrap();
    let second = queries::insert_article(
        &mut conn,
        saved("h1", "https://b.example", Some("Second"), vec![]),
    );
    assert!(matches!(
        second,
        Err(StashError::ConstraintViolation { ref hash }) if hash == "h1"
    ));
    let kept = queries::find_by_hash(&conn, "h1").unwrap().unwrap();
    assert_eq!(kept.url, "https://a.example");
    assert_eq!(kept.title, Some("First".to_string()));
    assert_eq!(queries::list_articles(&conn, -1, true).unwrap().len(), 1);
}

#[test]
fn scope_unread_unarchived_and_archived_only() {
    let mut conn = fresh();
    let a = queries::insert_article(&mut conn, saved("s1", "u1", Some("plain"), vec![])).unwrap();
    let b = queries::insert_article(&mut conn, saved("s2", "u2", Some("read"), vec![])).unwrap();
    let c = queries::insert_article(&mut conn, saved("s3", "u3", Some("arch"), vec![])).unwrap();
    queries::mark_read_by_ids(&mut conn, &vec![b.id]).unwrap();
    queries::archive_by_ids(&mut conn, &vec![c.id]).unwrap();

    let inbox = queries::list_articles_filtered(&conn, -1, false, false, false, &vec![], "time", false)
        .unwrap();
    assert_eq!(inbox.len(), 1);
    assert_eq!(inbox[0].id, a.id);
    assert!(inbox.iter().all(|x| !x.read && !x.archived));

    // archived = true restricts to archived rows whatever `all` says
    for all in [false, true] {
        let archived_only =
            queries::list_articles_filtered(&conn, -1, all, true, false, &vec![], "time", false)
                .unwrap();
        assert_eq!(archived_only.len(), 1);
        assert_eq!(archived_only[0].id, c.id);
        assert!(archived_only.iter().all(|x| x.archived));
    }
}

#[test]
fn tag_filter_requires_every_tag() {
    let mut conn = fresh();
    queries::insert_article(&mut conn, saved("t1", "u1", Some("rust only"), vec!["rust"]))
        .unwrap();
    let both = queries::insert_article(
        &mut conn,
        saved("t2", "u2", Some("both"), vec!["rust", "cli"]),
    )
    .unwrap();

    let hits = queries::list_articles_filtered(
        &conn,
        -1,
        true,
        false,
        false,
        &vec!["rust".to_string(), "cli".to_string()],
        "time",
        false,
    )
    .unwrap();
    assert_eq!(hits.len(), 1);
    assert_eq!(hits[0].id, both.id);
}

#[test]
fn title_sort_is_case_insensitive_both_ways() {
    let mut conn = fresh();
    queries::insert_article(&mut conn, saved("o1", "u1", Some("banana"), vec![])).unwrap();
    queries::insert_article(&mut conn, saved("o2", "u2", Some("Apple"), vec![])).unwrap();
    queries::insert_article(&mut conn, saved("o3", "u3", Some("cherry"), vec![])).unwrap();

    let asc = queries::list_articles_filtered(&conn, -1, true, false, false, &vec![], "title", false)
        .unwrap();
    let titles: Vec<_> = asc.iter().map(|a| a.title.clone().unwrap()).collect();
    assert_eq!(titles, vec!["Apple", "banana", "cherry"]);

    let desc = queries::list_articles_filtered(&conn, -1, true, false, false, &vec![], "title", true)
        .unwrap();
    let titles: Vec<_> = desc.iter().map(|a| a.title.clone().unwrap()).collect();
    assert_eq!(titles, vec!["cherry", "banana", "Apple"]);
}

#[test]
fn set_flag_empty_ids_is_a_no_op() {
    let mut conn = fresh();
    queries::insert_article(&mut conn, saved("e1", "u1", None, vec![])).unwrap();
    let out = queries::set_flag(&mut conn, &vec![], FlagOp::Read(true)).unwrap();
    assert!(out.is_empty());
    let rows = queries::list_articles(&conn, -1, true).unwrap();
    assert_eq!(rows.len(), 1);
    assert!(!rows[0].read);
}

#[test]
fn per_flag_setters_skip_empty_id_lists() {
    let mut conn = fresh();
    queries::insert_article(&mut conn, saved("p1", "u1", None, vec![])).unwrap();

    assert!(queries::set_read_by_ids(&mut conn, &vec![], true).unwrap().is_empty());
    assert!(queries::mark_read_by_ids(&mut conn, &vec![]).unwrap().is_empty());
    assert!(queries::set_starred_by_ids(&mut conn, &vec![], true).unwrap().is_empty());
    assert_eq!(queries::archive_by_ids(&mut conn, &vec![]).unwrap(), 0);
    assert_eq!(queries::unarchive_by_ids(&mut conn, &vec![]).unwrap(), 0);

    let rows = queries::list_articles(&conn, -1, true).unwrap();
    assert_eq!(rows.len(), 1);
    assert!(!rows[0].read && !rows[0].starred && !rows[0].archived);
}

#[test]
fn unarchive_resets_both_flags() {
    let mut conn = fresh();
    let a = queries::insert_article(&mut conn, saved("f1", "u1", None, vec![])).unwrap();
    queries::mark_read_by_ids(&mut conn, &vec![a.id]).unwrap();
    queries::archive_by_ids(&mut conn, &vec![a.id]).unwrap();
    let before = queries::get_article_by_id(&conn, a.id).unwrap().unwrap();
    assert!(before.read && before.archived);

    queries::unarchive_by_ids(&mut conn, &vec![a.id]).unwrap();
    let after = queries::get_article_by_id(&conn, a.id).unwrap().unwrap();
    assert!(!after.archived);
    assert!(!after.read);
}

#[test]
fn merge_keeps_target_tag_once() {
    let mut conn = fresh();
    let a = queries::insert_article(&mut conn, saved("m1", "u1", None, vec!["c", "a"])).unwrap();

    let touched = queries::merge_tags(
        &mut conn,
        &vec!["a".to_string(), "b".to_string()],
        &"c".to_string(),
    )
    .unwrap();
    assert_eq!(touched, 1);

    let after = queries::get_article_by_id(&conn, a.id).unwrap().unwrap();
    assert_eq!(after.tags, vec!["c".to_string()]);
}

#[test]
fn update_tags_round_trips_through_the_store() {
    let mut conn = fresh();
    let a = queries::insert_article(&mut conn, saved("r1", "u1", None, vec!["old"])).unwrap();

    queries::update_tags(&mut conn, a.id, vec!["x".to_string(), "y".to_string()]).unwrap();
    let fetched = queries::get_article_by_id(&conn, a.id).unwrap().unwrap();
    let mut tags = fetched.tags.clone();
    tags.sort();
    assert_eq!(tags, vec!["x".to_string(), "y".to_string()]);
}

#[test]
fn tag_query_returns_exactly_the_superset_row() {
    let mut conn = fresh();
    queries::insert_article(&mut conn, saved("h1", "uA", Some("A"), vec!["rust"])).unwrap();
    let b = queries::insert_article(
        &mut conn,
        saved("h2", "uB", Some("B"), vec!["rust", "cli"]),
    )
    .unwrap();

    let hits = queries::list_articles_filtered(
        &conn,
        -1,
        true,
        false,
        false,
        &vec!["rust".to_string(), "cli".to_string()],
        "time",
        false,
    )
    .unwrap();
    assert_eq!(hits.len(), 1);
    assert_eq!(hits[0].id, b.id);
}

#[test]
fn mark_all_read_empties_the_inbox() {
    let mut conn = fresh();
    for i in 0..5 {
        queries::insert_article(
            &mut conn,
            saved(&format!("k{}", i), &format!("u{}", i), None, vec![]),
        )
        .unwrap();
    }
    let updated = queries::mark_all(&mut conn, FlagOp::Read(true), false).unwrap();
    assert_eq!(updated.len(), 5);
    let inbox = queries::list_articles(&conn, -1, false).unwrap();
    assert!(inbox.is_empty());
}

#[test]
fn tag_column_codec_round_trips() {
    let cases: Vec<Vec<&str>> = vec![
        vec![],
        vec!["rust"],
        vec!["rust", "cli", "web-dev-101"],
        vec!["with \"quotes\"", "back\\slash", "line\nbreak", "tab\there"],
        vec!["ünïcodé", "日本語", "🚀"],
        vec!["dup", "dup"],
    ];
    for case in cases {
        let tags: Vec<String> = case.iter().map(|s| s.to_string()).collect();
        let encoded = encode_tags(&tags);
        assert_eq!(decode_tags(&encoded), Some(tags.clone()), "case {:?}", case);
        assert_eq!(decode_tags_or_empty(&encoded), tags);
    }
    assert_eq!(encode_tags(&vec!["a".to_string(), "b".to_string()]), "[\"a\",\"b\"]");
}

#[test]
fn tag_column_codec_accepts_common_escapes() {
    assert_eq!(
        decode_tags("[\"a\\/b\",\"c\\u0041d\"]"),
        Some(vec!["a/b".to_string(), "cAd".to_string()])
    );
}

#[test]
fn malformed_tag_column_reads_as_no_tags() {
    for bad in ["", "[", "]", "[\"a\"", "{\"a\":1}", "[\"a\",]", "[\"a\"]x", "[1,2]"] {
        assert_eq!(decode_tags_or_empty(bad), Vec::<String>::new(), "case {:?}", bad);
    }
}

#[test]
fn tag_validation_accepts_and_rejects() {
    for good in ["rust", "rust-lang", "web-dev-101", "a", "9"] {
        assert!(validate_tag(good), "expected valid: {}", good);
    }
    for bad in ["", "Rust", "rust_lang", "rust--lang", "-rust", "rust-", "a b", "é"] {
        assert!(!validate_tag(bad), "expected invalid: {}", bad);
    }
}

#[test]
fn tag_edits_apply_in_order() {
    let current = vec!["rust".to_string(), "web".to_string(), "rust".to_string()];
    let ops = vec!["+CLI".to_string(), "-web".to_string()];
    match apply_tag_operations(&current, &ops) {
        TagOpsResult::Updated(v) => assert_eq!(v, vec!["cli".to_string(), "rust".to_string()]),
        other => panic!("unexpected result: {:?}", other),
    }

    match apply_tag_operations(&current, &vec!["+bad_tag".to_string()]) {
        TagOpsResult::BadTag(t) => assert_eq!(t, "bad_tag"),
        other => panic!("unexpected result: {:?}", other),
    }

    match apply_tag_operations(&current, &vec!["nosign".to_string()]) {
        TagOpsResult::BadOp(o) => assert_eq!(o, "nosign"),
        other => panic!("unexpected result: {:?}", other),
    }

    assert!(matches!(
        apply_tag_operations(&current, &vec![]),
        TagOpsResult::NoChange
    ));
}

#[test]
fn rename_and_delete_tags_across_rows() {
    let mut conn = fresh();
    let a = queries::insert_article(&mut conn, saved("n1", "u1", None, vec!["old", "keep"]))
        .unwrap();
    let b = queries::insert_article(&mut conn, saved("n2", "u2", None, vec!["other"])).unwrap();

    let renamed = queries::rename_tag(&mut conn, &"old".to_string(), &"new".to_string()).unwrap();
    assert_eq!(renamed, 1);
    let a2 = queries::get_article_by_id(&conn, a.id).unwrap().unwrap();
    assert_eq!(a2.tags, vec!["keep".to_string(), "new".to_string()]);

    let deleted = queries::delete_tag(&mut conn, &"other".to_string()).unwrap();
    assert_eq!(deleted, 1);
    let b2 = queries::get_article_by_id(&conn, b.id).unwrap().unwrap();
    assert!(b2.tags.is_empty());

    // deleting a tag nobody carries is a reported no-op
    assert_eq!(queries::delete_tag(&mut conn, &"ghost".to_string()).unwrap(), 0);
}

#[test]
fn search_matches_text_case_blind() {
    let mut conn = fresh();
    queries::insert_article(
        &mut conn,
        saved("q1", "https://example.com/ferris", Some("The Rust Book"), vec![]),
    )
    .unwrap();
    queries::insert_article(&mut conn, saved("q2", "u2", Some("Gardening"), vec![])).unwrap();

    let hits = queries::search_articles(&conn, "rust", -1, true, false, false, &vec![]).unwrap();
    assert_eq!(hits.len(), 1);
    assert_eq!(hits[0].title, Some("The Rust Book".to_string()));

    let none = queries::search_articles(&conn, "cooking", -1, true, false, false, &vec![])
        .unwrap();
    assert!(none.is_empty());
}

#[test]
fn config_assignments_validate_and_read_back() {
    let c = Config::default();
    let c = config_set(c, "defaults.list_limit", "25".to_string()).unwrap();
    let c = config_set(c, "colors.theme", "dark".to_string()).unwrap();
    let c = config_set(c, "defaults.auto_read", "false".to_string()).unwrap();
    assert_eq!(config_get(&c, "defaults.list_limit").unwrap(), "25");
    assert_eq!(config_get(&c, "colors.theme").unwrap(), "dark");
    assert_eq!(config_get(&c, "defaults.auto_read").unwrap(), "false");
    assert_eq!(config_get(&c, "fetch.timeout_seconds").unwrap(), "10");

    assert!(matches!(
        config_set(Config::default(), "defaults.output_format", "yaml".to_string()),
        Err(StashError::ValidationError { .. })
    ));
    assert!(matches!(
        config_set(Config::default(), "colors.theme", "sepia".to_string()),
        Err(StashError::ValidationError { .. })
    ));
    assert!(matches!(
        config_set(Config::default(), "defaults.list_limit", "ten".to_string()),
        Err(StashError::ValidationError { .. })
    ));
    assert!(matches!(
        config_set(Config::default(), "nosuch.key", "1".to_string()),
        Err(StashError::ValidationError { .. })
    ));
    assert!(matches!(
        config_get(&Config::default(), "nosuch.key"),
        Err(StashError::ValidationError { .. })
    ));
}

#[test]
fn numbers_format_and_parse() {
    assert_eq!(u64_to_string(0), "0");
    assert_eq!(u64_to_string(90417), "90417");
    assert_eq!(i64_to_string(-42), "-42");
    assert_eq!(i64_to_string(i64::MIN), "-9223372036854775808");
    assert_eq!(parse_i64("123"), Some(123));
    assert_eq!(parse_i64("-123"), Some(-123));
    assert_eq!(parse_i64("+7"), Some(7));
    assert_eq!(parse_i64("9223372036854775807"), Some(i64::MAX));
    assert_eq!(parse_i64("-9223372036854775808"), Some(i64::MIN));
    assert_eq!(parse_i64("9223372036854775808"), None);
    assert_eq!(parse_i64(""), None);
    assert_eq!(parse_i64("12a"), None);
    assert_eq!(parse_i64("-"), None);
}

#[test]
fn ages_render_by_bucket() {
    let t = 1_700_000_000i64;
    assert_eq!(humanize_age(t + 30, t), "just now");
    assert_eq!(humanize_age(t, t + 30), "just now");
    assert_eq!(humanize_age(t + 90, t), "1m ago");
    assert_eq!(humanize_age(t + 2 * 3600 + 5, t), "2h ago");
    assert_eq!(humanize_age(t + 86400 + 3600, t), "yesterday");
    assert_eq!(humanize_age(t + 3 * 86400, t), "3d ago");
    assert_eq!(humanize_age(t + 20 * 86400, t), "2w ago");
    assert_eq!(humanize_age(t + 70 * 86400, t), "2mo ago");
    assert_eq!(humanize_age(t + 800 * 86400, t), "2y ago");
}

#[test]
fn markup_escaping_is_exact() {
    assert_eq!(
        html_escape("a<b & c>\"d\" 'e'"),
        "a&lt;b &amp; c&gt;&quot;d&quot; &#39;e&#39;"
    );
    assert_eq!(html_escape("plain"), "plain");
}

#[test]
fn id_lines_render_one_per_line() {
    let mut conn = fresh();
    let a = queries::insert_article(&mut conn, saved("i1", "u1", None, vec![])).unwrap();
    let b = queries::insert_article(&mut conn, saved("i2", "u2", None, vec![])).unwrap();
    let list = queries::find_by_ids(&conn, &vec![a.id, b.id]).unwrap();
    assert_eq!(format_id_lines(&list), format!("{}\n{}\n", a.id, b.id));
}

#[test]
fn tag_badges_cycle_colors() {
    let tags: Vec<String> = ["a", "b", "c", "d", "e", "f", "g"]
        .iter()
        .map(|s| s.to_string())
        .collect();
    let html = format_tags_colored(&tags);
    assert!(html.starts_with("<span class=\"tag tag-blue\">a</span>"));
    assert!(html.contains("<span class=\"tag tag-gray\">f</span>"));
    assert!(html.ends_with("<span class=\"tag tag-blue\">g</span>"));
}

#[test]
fn names_parse_to_fields_and_formats() {
    assert!(matches!(parse_sort_field("time"), Some(SortField::Time)));
    assert!(matches!(parse_sort_field("title"), Some(SortField::Title)));
    assert!(matches!(parse_sort_field("site"), Some(SortField::Site)));
    assert!(matches!(parse_sort_field("read"), Some(SortField::Read)));
    assert!(matches!(parse_sort_field("star"), Some(SortField::Star)));
    assert!(parse_sort_field("alphabetical").is_none());

    assert_eq!(parse_output_format("table"), Some(OutputFormat::Table));
    assert_eq!(parse_output_format("json"), Some(OutputFormat::Json));
    assert_eq!(parse_output_format("ids"), Some(OutputFormat::Ids));
    assert_eq!(parse_output_format("csv"), None);
}

#[test]
fn fallback_titles_prefer_user_then_site() {
    assert_eq!(
        fallback_title(Some("Mine".to_string()), &Some("example.com".to_string())),
        "Mine"
    );
    assert_eq!(fallback_title(None, &Some("example.com".to_string())), "example.com");
    assert_eq!(fallback_title(None, &None), "Untitled");
}

#[test]
fn errors_describe_themselves() {
    let e = StashError::NotFound { id: 7 };
    assert_eq!(e.describe(), "no article with id 7");
    let e = StashError::ConstraintViolation { hash: "h1".to_string() };
    assert_eq!(e.describe(), "an article with hash h1 exists already");
}

#[test]
fn random_sample_is_bounded_and_distinct() {
    let mut conn = fresh();
    for i in 0..4 {
        queries::insert_article(
            &mut conn,
            saved(&format!("z{}", i), &format!("u{}", i), None, vec![]),
        )
        .unwrap();
    }
    let sample = queries::get_random_articles(&conn, 2, true).unwrap();
    assert_eq!(sample.len(), 2);
    assert_ne!(sample[0].id, sample[1].id);
    let all = queries::get_random_articles(&conn, 100, true).unwrap();
    assert_eq!(all.len(), 4);
}
