use strmsync_core::config::ProcessConfig;
use strmsync_core::config::default_true;
use strmsync_core::item::BatchItem;
use strmsync_core::process::process_batch_impl;
use strmsync_core::result::PackedResult;
use strmsync_core::utils::{
    file_extension, has_prefix, is_valid_pickcode, normalize_extension, normalize_slash,
};

fn cfg(
    pan_media_dir: &str,
    rmt: &[&str],
    dl: &[&str],
    min_file_size: u64,
    auto: bool,
    detail_log: bool,
) -> ProcessConfig {
    ProcessConfig {
        pan_media_dir: pan_media_dir.to_string(),
        rmt_mediaext: rmt.iter().map(|s| s.to_string()).collect(),
        download_mediaext: dl.iter().map(|s| s.to_string()).collect(),
        min_file_size,
        auto_download_mediainfo: auto,
        detail_log,
    }
}

fn item(name: &str, path: &str, is_dir: bool, size: u64, pickcode: &str, sha1: &str) -> BatchItem {
    BatchItem {
        name: name.to_string(),
        path: path.to_string(),
        is_dir,
        size,
        pickcode: pickcode.to_string(),
        sha1: sha1.to_string(),
    }
}

fn run(config: &ProcessConfig, items: Vec<BatchItem>) -> PackedResult {
    process_batch_impl(config, &items)
}

const PC: &str = "AAAAAAAAAAAAAAAAA";

#[test]
fn end_to_end_example() {
    let c = cfg("/media", &["mp4"], &[], 1000, false, true);
    let items = vec![
        item("a.mp4", "/media/a.mp4", false, 2000, PC, ""),
        item("b.txt", "/media/b.txt", false, 5000, "", ""),
        item("c.mp4", "/other/c.mp4", false, 5000, "", ""),
    ];
    let r = run(&c, items);
    assert_eq!(r.strm_results.len(), 1);
    assert_eq!(r.strm_results[0].path_in_pan, "/media/a.mp4");
    assert_eq!(r.strm_results[0].pickcode, PC);
    assert_eq!(r.strm_results[0].original_file_name, "a.mp4");
    assert_eq!(r.download_results.len(), 0);
    assert_eq!(r.fail_results.len(), 0);
    assert_eq!(r.skip_results.len(), 2);
    assert_eq!(r.skip_results[0].path_in_pan, "/media/b.txt");
    assert_eq!(
        r.skip_results[0].reason,
        "extension .txt not in the organizable media list"
    );
    assert_eq!(r.skip_results[1].path_in_pan, "/other/c.mp4");
    assert_eq!(
        r.skip_results[1].reason,
        "path not under the remote media directory"
    );
}

#[test]
fn directories_never_appear() {
    let c = cfg("", &["mp4"], &["mp4"], 0, true, true);
    let r = run(&c, vec![item("a.mp4", "/x/a.mp4", true, 100, PC, "")]);
    assert_eq!(r.strm_results.len(), 0);
    assert_eq!(r.download_results.len(), 0);
    assert_eq!(r.fail_results.len(), 0);
    assert_eq!(r.skip_results.len(), 0);
}

#[test]
fn empty_name_or_path_never_appears() {
    let c = cfg("", &["mp4"], &[], 0, false, true);
    let r = run(
        &c,
        vec![
            item("", "/x/a.mp4", false, 100, PC, ""),
            item("a.mp4", "", false, 100, PC, ""),
        ],
    );
    assert_eq!(r.strm_results.len(), 0);
    assert_eq!(r.download_results.len(), 0);
    assert_eq!(r.fail_results.len(), 0);
    assert_eq!(r.skip_results.len(), 0);
}

#[test]
fn extension_normalization_variants() {
    assert_eq!(normalize_extension("mp4"), ".mp4");
    assert_eq!(normalize_extension(".MP4"), ".mp4");
    assert_eq!(normalize_extension(" Mp4 "), ".mp4");
    assert_eq!(normalize_extension("...mkv"), ".mkv");
    assert_eq!(normalize_extension(""), ".");
}

#[test]
fn extension_normalization_idempotent() {
    let once = normalize_extension(" .AVI ");
    let twice = normalize_extension(&once);
    assert_eq!(once, ".avi");
    assert_eq!(twice, once);
}

#[test]
fn equivalent_extension_spellings_match() {
    // All three spellings configure the same set {".mp4"}.
    let c = cfg("", &["mp4", ".MP4", " Mp4 "], &[], 0, false, true);
    let r = run(&c, vec![item("a.MP4", "/x/a.MP4", false, 9, PC, "")]);
    assert_eq!(r.strm_results.len(), 1);
    assert_eq!(r.skip_results.len(), 0);
}

#[test]
fn path_prefix_respects_segment_boundaries() {
    assert!(has_prefix("/media/a.mp4", "/media"));
    assert!(has_prefix("/media", "/media"));
    assert!(!has_prefix("/media2/a.mp4", "/media"));
    assert!(!has_prefix("/med", "/media"));
    assert!(has_prefix("/media/sub/deep/a.mp4", "/media/sub"));
}

#[test]
fn path_prefix_normalizes_slashes() {
    assert!(has_prefix("\\media\\a.mp4", "/media/"));
    assert!(has_prefix("  /media/a.mp4  ", " media "));
    assert!(has_prefix("media/a.mp4", "/media"));
}

#[test]
fn empty_root_matches_everything() {
    assert!(has_prefix("/anywhere/at/all", ""));
    assert!(has_prefix("relative.mp4", "   "));
    assert!(has_prefix("/x", "/"));
    let c = cfg("", &["mp4"], &[], 0, false, true);
    let r = run(&c, vec![item("a.mp4", "/very/far/a.mp4", false, 1, PC, "")]);
    assert_eq!(r.strm_results.len(), 1);
}

#[test]
fn normalize_slash_examples() {
    assert_eq!(normalize_slash(" \\media\\sub\\ "), "/media/sub");
    assert_eq!(normalize_slash(""), "/");
    assert_eq!(normalize_slash("///"), "/");
    assert_eq!(normalize_slash("a/b"), "/a/b");
}

#[test]
fn download_priority_over_stream() {
    // Extension in both lists, diversion on, valid pickcode: download wins.
    let c = cfg("/media", &["mp4"], &["mp4"], 0, true, true);
    let r = run(
        &c,
        vec![item("a.mp4", "/media/a.mp4", false, 10, PC, "cafe01")],
    );
    assert_eq!(r.download_results.len(), 1);
    assert_eq!(r.strm_results.len(), 0);
    assert_eq!(r.download_results[0].path_in_pan, "/media/a.mp4");
    assert_eq!(r.download_results[0].pickcode, PC);
    assert_eq!(r.download_results[0].sha1, "cafe01");
}

#[test]
fn download_diversion_needs_switch() {
    // Same item, diversion off: the stream rule applies instead.
    let c = cfg("/media", &["mp4"], &["mp4"], 0, false, true);
    let r = run(&c, vec![item("a.mp4", "/media/a.mp4", false, 10, PC, "")]);
    assert_eq!(r.download_results.len(), 0);
    assert_eq!(r.strm_results.len(), 1);
}

#[test]
fn detail_log_off_drops_skips_only() {
    let items = || {
        vec![
            item("a.mp4", "/media/a.mp4", false, 2000, PC, ""),
            item("b.txt", "/media/b.txt", false, 5000, "", ""),
            item("c.mp4", "/other/c.mp4", false, 5000, "", ""),
            item("d.mp4", "/media/d.mp4", false, 1, "", ""),
            item("e.mp4", "/media/e.mp4", false, 2000, "bad", ""),
        ]
    };
    let loud = run(&cfg("/media", &["mp4"], &[], 1000, false, true), items());
    let quiet = run(&cfg("/media", &["mp4"], &[], 1000, false, false), items());
    assert_eq!(loud.skip_results.len(), 3);
    assert_eq!(quiet.skip_results.len(), 0);
    assert_eq!(quiet.strm_results.len(), loud.strm_results.len());
    assert_eq!(quiet.download_results.len(), loud.download_results.len());
    assert_eq!(quiet.fail_results.len(), loud.fail_results.len());
    assert_eq!(quiet.fail_results[0].reason, loud.fail_results[0].reason);
}

#[test]
fn order_is_preserved_per_category() {
    let c = cfg("/m", &["mp4"], &[], 0, false, true);
    let r = run(
        &c,
        vec![
            item("1.mp4", "/m/1.mp4", false, 1, PC, ""),
            item("x.txt", "/m/x.txt", false, 1, "", ""),
            item("2.mp4", "/m/2.mp4", false, 1, PC, ""),
            item("y.txt", "/m/y.txt", false, 1, "", ""),
            item("3.mp4", "/m/3.mp4", false, 1, PC, ""),
        ],
    );
    let streams: Vec<&str> = r.strm_results.iter().map(|s| s.path_in_pan.as_str()).collect();
    assert_eq!(streams, vec!["/m/1.mp4", "/m/2.mp4", "/m/3.mp4"]);
    let skips: Vec<&str> = r.skip_results.iter().map(|s| s.path_in_pan.as_str()).collect();
    assert_eq!(skips, vec!["/m/x.txt", "/m/y.txt"]);
}

#[test]
fn pickcode_validation_examples() {
    assert!(is_valid_pickcode("AAAAAAAAAAAAAAAAA"));
    assert!(!is_valid_pickcode("AAAA-AAAAAAAAAAAA"));
    assert!(!is_valid_pickcode("AAAAAAAAAAAAAAAA"));
    assert!(is_valid_pickcode("  AAAAAAAAAAAAAAAAA  "));
    assert!(is_valid_pickcode("abc12def34ghi56jk"));
    assert!(!is_valid_pickcode(""));
}

#[test]
fn file_extension_examples() {
    assert_eq!(file_extension("Movie.MKV"), ".mkv");
    assert_eq!(file_extension("noext"), "");
    assert_eq!(file_extension(".gitignore"), "");
    assert_eq!(file_extension("archive.tar.gz"), ".gz");
    assert_eq!(file_extension("trailing."), ".");
}

#[test]
fn size_skip_reason_is_exact() {
    let c = cfg("/m", &["mp4"], &[], 1000, false, true);
    let r = run(&c, vec![item("a.mp4", "/m/a.mp4", false, 500, PC, "")]);
    assert_eq!(r.skip_results.len(), 1);
    assert_eq!(r.skip_results[0].reason, "file size 500 below minimum 1000");
}

#[test]
fn stream_fail_reasons() {
    let c = cfg("/m", &["mp4"], &[], 0, false, true);
    let r = run(
        &c,
        vec![
            item("a.mp4", "/m/a.mp4", false, 1, "", ""),
            item("b.mp4", "/m/b.mp4", false, 1, "short", ""),
        ],
    );
    assert_eq!(r.fail_results.len(), 2);
    assert_eq!(
        r.fail_results[0].reason,
        "no pickcode, cannot create stream reference"
    );
    assert_eq!(r.fail_results[1].reason, "invalid pickcode value: short");
}

#[test]
fn download_fail_reasons() {
    let c = cfg("/m", &[], &["iso"], 0, true, true);
    let r = run(
        &c,
        vec![
            item("a.iso", "/m/a.iso", false, 1, "", ""),
            item("b.ISO", "/m/b.iso", false, 1, "0123456789abcdef-", ""),
        ],
    );
    assert_eq!(r.fail_results.len(), 2);
    assert_eq!(
        r.fail_results[0].reason,
        "no pickcode, cannot download media info"
    );
    assert_eq!(
        r.fail_results[1].reason,
        "invalid pickcode value: 0123456789abcdef-"
    );
}

#[test]
fn extension_matching_is_case_insensitive_both_ways() {
    let c = cfg("", &[".MKV"], &[], 0, false, true);
    let r = run(&c, vec![item("Show.mkv", "/a/Show.mkv", false, 1, PC, "")]);
    assert_eq!(r.strm_results.len(), 1);
}

#[test]
fn min_size_boundary_is_inclusive() {
    let c = cfg("", &["mp4"], &[], 1000, false, true);
    let r = run(
        &c,
        vec![
            item("a.mp4", "/a.mp4", false, 1000, PC, ""),
            item("b.mp4", "/b.mp4", false, 999, PC, ""),
        ],
    );
    assert_eq!(r.strm_results.len(), 1);
    assert_eq!(r.strm_results[0].path_in_pan, "/a.mp4");
    assert_eq!(r.skip_results.len(), 1);
    assert_eq!(r.skip_results[0].path_in_pan, "/b.mp4");
}

#[test]
fn no_extension_gives_empty_extension_reason() {
    let c = cfg("", &["mp4"], &[], 0, false, true);
    let r = run(&c, vec![item("README", "/a/README", false, 1, PC, "")]);
    assert_eq!(r.skip_results.len(), 1);
    assert_eq!(
        r.skip_results[0].reason,
        "extension  not in the organizable media list"
    );
}

#[test]
fn detail_log_defaults_on() {
    assert!(default_true());
}
