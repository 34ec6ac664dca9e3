use gdem::list::Entry;
use gdem::utils::{
    flattened, get_remote_file_size, move_and_clean_subfolder, parse_u64, plan_download,
    promote_if_single_subdir, received, sha256sum, sha512sum, to_hex, DownloadPlan, UrlParams,
};

fn pair(k: &str, v: &str) -> (String, String) {
    (k.to_string(), v.to_string())
}

fn file(name: &str) -> Entry {
    Entry { name: name.to_string(), is_dir: false }
}

fn dir(name: &str) -> Entry {
    Entry { name: name.to_string(), is_dir: true }
}

#[test]
fn url_params_start_empty() {
    let params = UrlParams::new();
    assert_eq!(params.len(), 0);
    assert!(params.is_empty());
    let params = UrlParams::default();
    assert!(params.is_empty());
}

#[test]
fn url_params_keep_order_and_repeated_keys() {
    let mut params = UrlParams::new();
    params.add("page", "1");
    params.add_iterable(&["a", "b"], "tag");
    params.add_optional("q", Some("godot"));
    params.add_optional("skipped", None);
    params.add("page", "2");
    assert_eq!(
        params.params,
        vec![
            pair("page", "1"),
            pair("tag", "a"),
            pair("tag", "b"),
            pair("q", "godot"),
            pair("page", "2"),
        ]
    );
    assert_eq!(params.len(), 5);
    assert!(!params.is_empty());
}

#[test]
fn url_params_add_iterable_of_nothing_adds_nothing() {
    let mut params = UrlParams::new();
    params.add_iterable(&[], "tag");
    assert!(params.is_empty());
}

#[test]
fn parse_u64_reads_decimal_digits() {
    assert_eq!(parse_u64("0"), Some(0));
    assert_eq!(parse_u64("1234"), Some(1234));
    assert_eq!(parse_u64("+17"), Some(17));
    assert_eq!(parse_u64("007"), Some(7));
    assert_eq!(parse_u64("18446744073709551615"), Some(u64::MAX));
    assert_eq!(parse_u64("18446744073709551616"), None);
    assert_eq!(parse_u64("99999999999999999999999"), None);
    assert_eq!(parse_u64(""), None);
    assert_eq!(parse_u64("+"), None);
    assert_eq!(parse_u64("-1"), None);
    assert_eq!(parse_u64("12a"), None);
    assert_eq!(parse_u64(" 12"), None);
    assert_eq!(parse_u64("１２"), None);
}

#[test]
fn parse_u64_agrees_with_the_standard_library() {
    for s in ["0", "+0", "42", "+", "++1", "1+", "18446744073709551615", "18446744073709551616", "x"] {
        assert_eq!(parse_u64(s), s.parse::<u64>().ok(), "{:?}", s);
    }
}

#[test]
fn remote_size_of_an_unranged_request_is_the_content_length() {
    assert_eq!(get_remote_file_size(Some("1000"), None, 0), Some(1000));
    assert_eq!(get_remote_file_size(None, None, 0), Some(0));
    assert_eq!(get_remote_file_size(Some("junk"), None, 0), Some(0));
    assert_eq!(get_remote_file_size(Some("1000"), Some("bytes 0-999/5000"), 0), Some(1000));
}

#[test]
fn remote_size_of_a_ranged_request_prefers_the_stated_total() {
    assert_eq!(get_remote_file_size(Some("600"), Some("bytes 400-999/1000"), 400), Some(1000));
    assert_eq!(get_remote_file_size(Some("600"), None, 400), Some(1000));
    assert_eq!(get_remote_file_size(Some("600"), Some("bytes 400-999/*"), 400), Some(1000));
    assert_eq!(get_remote_file_size(Some("600"), Some("no slash"), 400), Some(1000));
    assert_eq!(get_remote_file_size(None, None, 400), Some(400));
    assert_eq!(get_remote_file_size(Some("600"), Some("bytes 400-999/1000/7"), 400), Some(1000));
}

#[test]
fn remote_size_that_does_not_fit_is_none() {
    assert_eq!(get_remote_file_size(Some("18446744073709551615"), None, 1), None);
}

#[test]
fn plan_is_complete_only_for_an_equal_total_that_is_not_zero() {
    assert_eq!(plan_download(1000, 1000), DownloadPlan::Complete);
    assert_eq!(plan_download(400, 1000), DownloadPlan::Resume { from: 400 });
    assert_eq!(plan_download(0, 1000), DownloadPlan::Fresh);
    assert_eq!(plan_download(0, 0), DownloadPlan::Fresh);
    assert_eq!(plan_download(5, 0), DownloadPlan::Resume { from: 5 });
    assert_eq!(plan_download(1200, 1000), DownloadPlan::Resume { from: 1200 });
}

#[test]
fn resumed_download_equals_download_in_one_go() {
    let resource: Vec<u8> = (0..=255u8).cycle().take(1000).collect();
    let total = resource.len() as u64;
    let at_once = received(Vec::new(), plan_download(0, total), &resource);
    assert_eq!(at_once, resource);
    for kept in [1usize, 2, 400, 999] {
        let partial = resource[..kept].to_vec();
        let plan = plan_download(kept as u64, total);
        assert_eq!(plan, DownloadPlan::Resume { from: kept as u64 });
        let file = received(partial, plan, &resource[kept..]);
        assert_eq!(file, resource, "cut after {} bytes", kept);
    }
    let whole = received(resource.clone(), plan_download(total, total), &[]);
    assert_eq!(whole, resource);
}

#[test]
fn fresh_download_overwrites_what_was_there() {
    assert_eq!(received(vec![9, 9], DownloadPlan::Fresh, &[1, 2, 3]), vec![1, 2, 3]);
    assert_eq!(received(vec![9, 9], DownloadPlan::Complete, &[1, 2, 3]), vec![9, 9]);
    assert_eq!(received(vec![9, 9], DownloadPlan::Resume { from: 2 }, &[1]), vec![9, 9, 1]);
}

#[test]
fn hex_is_lowercase_two_digits_a_byte() {
    assert_eq!(to_hex(&[]), "");
    assert_eq!(to_hex(&[0x00, 0x0f, 0xa0, 0xff]), "000fa0ff");
    assert_eq!(to_hex(&[0x12, 0xAB]), "12ab");
}

#[test]
fn sha256_of_known_inputs() {
    assert_eq!(
        sha256sum(b""),
        "e3b0c44298fc1c149afbf4c8996fb92427ae41e4649b934ca495991b7852b855"
    );
    assert_eq!(
        sha256sum(b"abc"),
        "ba7816bf8f01cfea414140de5dae2223b00361a396177a9cb410ff61f20015ad"
    );
}

#[test]
fn sha512_of_known_inputs() {
    assert_eq!(
        sha512sum(b""),
        "cf83e1357eefb8bdf1542850d66d8007d620e4050b5715dc83f4a921d36ce9ce47d0d13c5d85f2b0ff8318d2877eec2f63b931bd47417a81a538327af927da3e"
    );
    assert_eq!(
        sha512sum(b"abc"),
        "ddaf35a193617abacc417349ae20413112e6fa4e89a97ea20a9eeee64b55d39a2192992a274fc1a836ba3c23a3feebbd454d4423643ce80e2a9ac94fa54ca49f"
    );
    assert_eq!(sha512sum(b"hello world").len(), 128);
}

#[test]
fn single_visible_directory_is_the_wrapper() {
    assert_eq!(promote_if_single_subdir(&vec![dir("Godot_v4.4.1")]), Some(0));
    assert_eq!(promote_if_single_subdir(&vec![file(".DS_Store"), dir("Godot_v4.4.1")]), Some(1));
    assert_eq!(
        promote_if_single_subdir(&vec![dir(".git"), dir("Godot_v4.4.1"), file(".hidden")]),
        Some(1)
    );
}

#[test]
fn no_wrapper_where_more_or_less_is_visible() {
    assert_eq!(promote_if_single_subdir(&vec![]), None);
    assert_eq!(promote_if_single_subdir(&vec![file("godot.exe")]), None);
    assert_eq!(promote_if_single_subdir(&vec![dir("a"), dir("b")]), None);
    assert_eq!(promote_if_single_subdir(&vec![dir("a"), file("readme.txt")]), None);
    assert_eq!(promote_if_single_subdir(&vec![dir(".only_hidden")]), None);
}

#[test]
fn single_wrapper_flattens_to_the_same_listing_as_no_wrapper() {
    let flat = vec![file("godot.exe"), file("godot_console.exe"), dir("GodotSharp")];
    let wrapped = vec![dir("Godot_v4.4.1-stable_mono_win64")];
    let at = promote_if_single_subdir(&wrapped).unwrap();
    assert_eq!(flattened(&wrapped, at, &flat), flat);
    assert_eq!(promote_if_single_subdir(&flat), None);
}

#[test]
fn flattening_keeps_the_other_entries_first() {
    let outer = vec![file(".a"), dir("w"), file(".b")];
    let inner = vec![file("x"), dir("y")];
    assert_eq!(
        flattened(&outer, 1, &inner),
        vec![file(".a"), file(".b"), file("x"), dir("y")]
    );
    assert_eq!(flattened(&outer, 0, &Vec::new()), vec![dir("w"), file(".b")]);
}

#[test]
fn sole_directory_counts_hidden_entries_too() {
    assert_eq!(move_and_clean_subfolder(&vec![file("a"), dir("b"), file("c")]), Some(1));
    assert_eq!(move_and_clean_subfolder(&vec![dir(".hidden")]), Some(0));
    assert_eq!(move_and_clean_subfolder(&vec![dir("a"), dir(".b")]), None);
    assert_eq!(move_and_clean_subfolder(&vec![file("a")]), None);
    assert_eq!(move_and_clean_subfolder(&vec![]), None);
}
