//! The classifier: an ordered decision chain that maps one configuration
//! and one batch of items to the four result sequences.

use vstd::prelude::*;
use vstd::seq_lib::*;

use crate::config::ProcessConfig;
use crate::item::BatchItem;
use crate::result::{DownloadResult, FailResult, PackedResult, SkipResult, StrmResult};
use crate::text::{dec_digits, push_dec_u64};
use crate::utils::{
    ext_of, file_extension, has_prefix, is_valid_pickcode, norm_ext, normalize_extension,
    path_in_root, valid_pickcode,
};

verus! {

/// The disposition the decision chain assigns to one item.
#[derive(Clone, Copy, PartialEq, Eq, Structural, Debug)]
pub enum Category {
    /// No output in any category.
    Dropped,
    /// A skip record, emitted only while `detail_log` is on.
    Skipped,
    /// A fail record: the item needs attention.
    Failed,
    /// A download record: fetch extended media metadata.
    Downloaded,
    /// A stream record: create a playable stream reference.
    Streamed,
}

/// Whether `e` occurs in the configured extension list, under normalization.
pub open spec fn in_ext_list(list: Seq<String>, e: Seq<char>) -> bool {
    exists|k: int| 0 <= k < list.len() && norm_ext(list[k]@) == e
}

/// Whether the item is diverted to metadata download: the diversion switch
/// is on and the item's extension is in the download list.
pub open spec fn download_diverted(cfg: ProcessConfig, item: BatchItem) -> bool {
    cfg.auto_download_mediainfo && in_ext_list(cfg.download_mediaext@, ext_of(item.name@))
}

/// The ordered decision chain: the first matching rule determines the
/// disposition of the item.
pub open spec fn category_of(cfg: ProcessConfig, item: BatchItem) -> Category {
    if item.name@.len() == 0 || item.path@.len() == 0 {
        Category::Dropped
    } else if item.is_dir {
        Category::Dropped
    } else if !path_in_root(item.path@, cfg.pan_media_dir@) {
        if cfg.detail_log {
            Category::Skipped
        } else {
            Category::Dropped
        }
    } else if download_diverted(cfg, item) {
        if item.pickcode@.len() == 0 {
            Category::Failed
        } else if !valid_pickcode(item.pickcode@) {
            Category::Failed
        } else {
            Category::Downloaded
        }
    } else if !in_ext_list(cfg.rmt_mediaext@, ext_of(item.name@)) {
        if cfg.detail_log {
            Category::Skipped
        } else {
            Category::Dropped
        }
    } else if item.size < cfg.min_file_size {
        if cfg.detail_log {
            Category::Skipped
        } else {
            Category::Dropped
        }
    } else if item.pickcode@.len() == 0 {
        Category::Failed
    } else if !valid_pickcode(item.pickcode@) {
        Category::Failed
    } else {
        Category::Streamed
    }
}

pub open spec fn reason_out_of_root() -> Seq<char> {
    "path not under the remote media directory"@
}

pub open spec fn reason_ext_not_listed(ext: Seq<char>) -> Seq<char> {
    "extension "@ + ext + " not in the organizable media list"@
}

pub open spec fn reason_size_below(size: u64, min: u64) -> Seq<char> {
    "file size "@ + dec_digits(size as int) + " below minimum "@ + dec_digits(min as int)
}

pub open spec fn reason_download_no_pickcode() -> Seq<char> {
    "no pickcode, cannot download media info"@
}

pub open spec fn reason_stream_no_pickcode() -> Seq<char> {
    "no pickcode, cannot create stream reference"@
}

pub open spec fn reason_invalid_pickcode(pc: Seq<char>) -> Seq<char> {
    "invalid pickcode value: "@ + pc
}

/// The reason recorded for an item whose disposition is `Skipped`.
pub open spec fn skip_reason_of(cfg: ProcessConfig, item: BatchItem) -> Seq<char> {
    if !path_in_root(item.path@, cfg.pan_media_dir@) {
        reason_out_of_root()
    } else if !in_ext_list(cfg.rmt_mediaext@, ext_of(item.name@)) {
        reason_ext_not_listed(ext_of(item.name@))
    } else {
        reason_size_below(item.size, cfg.min_file_size)
    }
}

/// The reason recorded for an item whose disposition is `Failed`.
pub open spec fn fail_reason_of(cfg: ProcessConfig, item: BatchItem) -> Seq<char> {
    if download_diverted(cfg, item) {
        if item.pickcode@.len() == 0 {
            reason_download_no_pickcode()
        } else {
            reason_invalid_pickcode(item.pickcode@)
        }
    } else {
        if item.pickcode@.len() == 0 {
            reason_stream_no_pickcode()
        } else {
            reason_invalid_pickcode(item.pickcode@)
        }
    }
}

/// The subsequence of `items` routed to stream-reference creation.
pub open spec fn streamed_items(cfg: ProcessConfig, items: Seq<BatchItem>) -> Seq<BatchItem> {
    items.filter(|it: BatchItem| category_of(cfg, it) == Category::Streamed)
}

/// The subsequence of `items` routed to metadata download.
pub open spec fn downloaded_items(cfg: ProcessConfig, items: Seq<BatchItem>) -> Seq<BatchItem> {
    items.filter(|it: BatchItem| category_of(cfg, it) == Category::Downloaded)
}

/// The subsequence of `items` routed to the fail category.
pub open spec fn failed_items(cfg: ProcessConfig, items: Seq<BatchItem>) -> Seq<BatchItem> {
    items.filter(|it: BatchItem| category_of(cfg, it) == Category::Failed)
}

/// The subsequence of `items` recorded as skipped.
pub open spec fn skipped_items(cfg: ProcessConfig, items: Seq<BatchItem>) -> Seq<BatchItem> {
    items.filter(|it: BatchItem| category_of(cfg, it) == Category::Skipped)
}

/// One stream record carries the item's path, pickcode and name.
pub open spec fn strm_matches(s: StrmResult, it: BatchItem) -> bool {
    &&& s.path_in_pan@ == it.path@
    &&& s.pickcode@ == it.pickcode@
    &&& s.original_file_name@ == it.name@
}

/// One download record carries the item's path, pickcode and sha1.
pub open spec fn download_matches(d: DownloadResult, it: BatchItem) -> bool {
    &&& d.path_in_pan@ == it.path@
    &&& d.pickcode@ == it.pickcode@
    &&& d.sha1@ == it.sha1@
}

/// One fail record carries the item's path and the reason of its failure.
pub open spec fn fail_matches(cfg: ProcessConfig, f: FailResult, it: BatchItem) -> bool {
    &&& f.path_in_pan@ == it.path@
    &&& f.reason@ == fail_reason_of(cfg, it)
}

/// One skip record carries the item's path and the reason it was skipped.
pub open spec fn skip_matches(cfg: ProcessConfig, s: SkipResult, it: BatchItem) -> bool {
    &&& s.path_in_pan@ == it.path@
    &&& s.reason@ == skip_reason_of(cfg, it)
}

pub open spec fn strm_seq_matches(rs: Seq<StrmResult>, its: Seq<BatchItem>) -> bool {
    &&& rs.len() == its.len()
    &&& forall|i: int| 0 <= i < its.len() ==> strm_matches(#[trigger] rs[i], its[i])
}

pub open spec fn download_seq_matches(rs: Seq<DownloadResult>, its: Seq<BatchItem>) -> bool {
    &&& rs.len() == its.len()
    &&& forall|i: int| 0 <= i < its.len() ==> download_matches(#[trigger] rs[i], its[i])
}

pub open spec fn fail_seq_matches(
    cfg: ProcessConfig,
    rs: Seq<FailResult>,
    its: Seq<BatchItem>,
) -> bool {
    &&& rs.len() == its.len()
    &&& forall|i: int| 0 <= i < its.len() ==> fail_matches(cfg, #[trigger] rs[i], its[i])
}

pub open spec fn skip_seq_matches(
    cfg: ProcessConfig,
    rs: Seq<SkipResult>,
    its: Seq<BatchItem>,
) -> bool {
    &&& rs.len() == its.len()
    &&& forall|i: int| 0 <= i < its.len() ==> skip_matches(cfg, #[trigger] rs[i], its[i])
}

/// The whole contract of one classification call: each of the four result
/// sequences records, in input order, exactly the items whose disposition
/// is the corresponding category.
pub open spec fn packed_matches(cfg: ProcessConfig, items: Seq<BatchItem>, r: PackedResult) -> bool {
    &&& strm_seq_matches(r.strm_results@, streamed_items(cfg, items))
    &&& download_seq_matches(r.download_results@, downloaded_items(cfg, items))
    &&& fail_seq_matches(cfg, r.fail_results@, failed_items(cfg, items))
    &&& skip_seq_matches(cfg, r.skip_results@, skipped_items(cfg, items))
}

/// Extending the classified prefix by one item extends exactly the one
/// category sequence that the item's disposition selects.
proof fn lemma_category_take_step(cfg: ProcessConfig, items: Seq<BatchItem>, i: int)
    requires
        0 <= i < items.len(),
    ensures
        streamed_items(cfg, items.take(i + 1)) == if category_of(cfg, items[i])
            == Category::Streamed {
            streamed_items(cfg, items.take(i)).push(items[i])
        } else {
            streamed_items(cfg, items.take(i))
        },
        downloaded_items(cfg, items.take(i + 1)) == if category_of(cfg, items[i])
            == Category::Downloaded {
            downloaded_items(cfg, items.take(i)).push(items[i])
        } else {
            downloaded_items(cfg, items.take(i))
        },
        failed_items(cfg, items.take(i + 1)) == if category_of(cfg, items[i])
            == Category::Failed {
            failed_items(cfg, items.take(i)).push(items[i])
        } else {
            failed_items(cfg, items.take(i))
        },
        skipped_items(cfg, items.take(i + 1)) == if category_of(cfg, items[i])
            == Category::Skipped {
            skipped_items(cfg, items.take(i)).push(items[i])
        } else {
            skipped_items(cfg, items.take(i))
        },
{
    reveal(Seq::filter);
    assert(items.take(i + 1).drop_last() =~= items.take(i));
    assert(items.take(i + 1).last() == items[i]);
}

/// The classified prefix of length zero has four empty category sequences.
proof fn lemma_category_take_zero(cfg: ProcessConfig, items: Seq<BatchItem>)
    ensures
        streamed_items(cfg, items.take(0)).len() == 0,
        downloaded_items(cfg, items.take(0)).len() == 0,
        failed_items(cfg, items.take(0)).len() == 0,
        skipped_items(cfg, items.take(0)).len() == 0,
{
    reveal(Seq::filter);
    assert(items.take(0).len() == 0);
}

proof fn lemma_step_none(
    cfg: ProcessConfig,
    items: Seq<BatchItem>,
    i: int,
    r: PackedResult,
)
    requires
        0 <= i < items.len(),
        packed_matches(cfg, items.take(i), r),
        category_of(cfg, items[i]) == Category::Dropped,
    ensures
        packed_matches(cfg, items.take(i + 1), r),
{
    lemma_category_take_step(cfg, items, i);
}

proof fn lemma_step_strm(
    cfg: ProcessConfig,
    items: Seq<BatchItem>,
    i: int,
    r_old: PackedResult,
    r_new: PackedResult,
    s: StrmResult,
)
    requires
        0 <= i < items.len(),
        packed_matches(cfg, items.take(i), r_old),
        category_of(cfg, items[i]) == Category::Streamed,
        strm_matches(s, items[i]),
        r_new.strm_results@ == r_old.strm_results@.push(s),
        r_new.download_results@ == r_old.download_results@,
        r_new.fail_results@ == r_old.fail_results@,
        r_new.skip_results@ == r_old.skip_results@,
    ensures
        packed_matches(cfg, items.take(i + 1), r_new),
{
    lemma_category_take_step(cfg, items, i);
    let its = streamed_items(cfg, items.take(i + 1));
    assert forall|j: int| 0 <= j < its.len() implies strm_matches(
        #[trigger] r_new.strm_results@[j],
        its[j],
    ) by {
        if j < its.len() - 1 {
            assert(strm_matches(r_old.strm_results@[j], streamed_items(cfg, items.take(i))[j]));
        }
    }
}

proof fn lemma_step_download(
    cfg: ProcessConfig,
    items: Seq<BatchItem>,
    i: int,
    r_old: PackedResult,
    r_new: PackedResult,
    d: DownloadResult,
)
    requires
        0 <= i < items.len(),
        packed_matches(cfg, items.take(i), r_old),
        category_of(cfg, items[i]) == Category::Downloaded,
        download_matches(d, items[i]),
        r_new.strm_results@ == r_old.strm_results@,
        r_new.download_results@ == r_old.download_results@.push(d),
        r_new.fail_results@ == r_old.fail_results@,
        r_new.skip_results@ == r_old.skip_results@,
    ensures
        packed_matches(cfg, items.take(i + 1), r_new),
{
    lemma_category_take_step(cfg, items, i);
    let its = downloaded_items(cfg, items.take(i + 1));
    assert forall|j: int| 0 <= j < its.len() implies download_matches(
        #[trigger] r_new.download_results@[j],
        its[j],
    ) by {
        if j < its.len() - 1 {
            assert(download_matches(
                r_old.download_results@[j],
                downloaded_items(cfg, items.take(i))[j],
            ));
        }
    }
}

proof fn lemma_step_fail(
    cfg: ProcessConfig,
    items: Seq<BatchItem>,
    i: int,
    r_old: PackedResult,
    r_new: PackedResult,
    f: FailResult,
)
    requires
        0 <= i < items.len(),
        packed_matches(cfg, items.take(i), r_old),
        category_of(cfg, items[i]) == Category::Failed,
        fail_matches(cfg, f, items[i]),
        r_new.strm_results@ == r_old.strm_results@,
        r_new.download_results@ == r_old.download_results@,
        r_new.fail_results@ == r_old.fail_results@.push(f),
        r_new.skip_results@ == r_old.skip_results@,
    ensures
        packed_matches(cfg, items.take(i + 1), r_new),
{
    lemma_category_take_step(cfg, items, i);
    let its = failed_items(cfg, items.take(i + 1));
    assert forall|j: int| 0 <= j < its.len() implies fail_matches(
        cfg,
        #[trigger] r_new.fail_results@[j],
        its[j],
    ) by {
        if j < its.len() - 1 {
            assert(fail_matches(cfg, r_old.fail_results@[j], failed_items(cfg, items.take(i))[j]));
        }
    }
}

proof fn lemma_step_skip(
    cfg: ProcessConfig,
    items: Seq<BatchItem>,
    i: int,
    r_old: PackedResult,
    r_new: PackedResult,
    s: SkipResult,
)
    requires
        0 <= i < items.len(),
        packed_matches(cfg, items.take(i), r_old),
        category_of(cfg, items[i]) == Category::Skipped,
        skip_matches(cfg, s, items[i]),
        r_new.strm_results@ == r_old.strm_results@,
        r_new.download_results@ == r_old.download_results@,
        r_new.fail_results@ == r_old.fail_results@,
        r_new.skip_results@ == r_old.skip_results@.push(s),
    ensures
        packed_matches(cfg, items.take(i + 1), r_new),
{
    lemma_category_take_step(cfg, items, i);
    let its = skipped_items(cfg, items.take(i + 1));
    assert forall|j: int| 0 <= j < its.len() implies skip_matches(
        cfg,
        #[trigger] r_new.skip_results@[j],
        its[j],
    ) by {
        if j < its.len() - 1 {
            assert(skip_matches(cfg, r_old.skip_results@[j], skipped_items(cfg, items.take(i))[j]));
        }
    }
}

/// Membership in the normalized list mirrors membership under `norm_ext`
/// in the raw configured list.
proof fn lemma_set_equiv(list: Seq<String>, set: Seq<String>, e: Seq<char>)
    requires
        set.len() == list.len(),
        forall|k: int| 0 <= k < list.len() ==> #[trigger] set[k]@ == norm_ext(list[k]@),
    ensures
        (exists|k: int| 0 <= k < set.len() && #[trigger] set[k]@ == e) == in_ext_list(list, e),
{
    if exists|k: int| 0 <= k < set.len() && #[trigger] set[k]@ == e {
        let k = choose|k: int| 0 <= k < set.len() && #[trigger] set[k]@ == e;
        assert(norm_ext(list[k]@) == e);
    }
    if in_ext_list(list, e) {
        let k = choose|k: int| 0 <= k < list.len() && norm_ext(#[trigger] list[k]@) == e;
        assert(set[k]@ == e);
    }
}

/// The configured extension list, each entry normalized.
fn normalize_ext_list(list: &Vec<String>) -> (r: Vec<String>)
    ensures
        r@.len() == list@.len(),
        forall|k: int| 0 <= k < list@.len() ==> #[trigger] r@[k]@ == norm_ext(list@[k]@),
{
    let mut r: Vec<String> = Vec::new();
    let mut i: usize = 0;
    while i < list.len()
        invariant
            i <= list@.len(),
            r@.len() == i,
            forall|k: int| 0 <= k < i ==> #[trigger] r@[k]@ == norm_ext(list@[k]@),
        decreases list@.len() - i,
    {
        let e = normalize_extension(list[i].as_str());
        r.push(e);
        i = i + 1;
    }
    r
}

/// Linear membership test over the normalized extension set.
fn ext_in_set(set: &Vec<String>, ext: &String) -> (b: bool)
    ensures
        b == (exists|k: int| 0 <= k < set@.len() && #[trigger] set@[k]@ == ext@),
{
    let mut i: usize = 0;
    while i < set.len()
        invariant
            i <= set@.len(),
            forall|k: int| 0 <= k < i ==> #[trigger] set@[k]@ != ext@,
        decreases set@.len() - i,
    {
        if set[i] == *ext {
            return true;
        }
        i = i + 1;
    }
    false
}

/// What the decision chain does with one item.
enum ItemAction {
    NoOutput,
    PushSkip(SkipResult),
    PushFail(FailResult),
    PushDownload(DownloadResult),
    PushStrm(StrmResult),
}

/// Runs the decision chain on one item and returns the record to append,
/// if any.  The returned action agrees with the item's spec disposition.
fn classify_one(
    config: &ProcessConfig,
    rmt_set: &Vec<String>,
    dl_set: &Vec<String>,
    item: &BatchItem,
) -> (a: ItemAction)
    requires
        rmt_set@.len() == config.rmt_mediaext@.len(),
        forall|k: int|
            0 <= k < rmt_set@.len() ==> #[trigger] rmt_set@[k]@ == norm_ext(
                config.rmt_mediaext@[k]@,
            ),
        dl_set@.len() == config.download_mediaext@.len(),
        forall|k: int|
            0 <= k < dl_set@.len() ==> #[trigger] dl_set@[k]@ == norm_ext(
                config.download_mediaext@[k]@,
            ),
    ensures
        (match a {
            ItemAction::NoOutput => category_of(*config, *item) == Category::Dropped,
            ItemAction::PushSkip(s) => category_of(*config, *item) == Category::Skipped
                && skip_matches(*config, s, *item),
            ItemAction::PushFail(f) => category_of(*config, *item) == Category::Failed
                && fail_matches(*config, f, *item),
            ItemAction::PushDownload(d) => category_of(*config, *item) == Category::Downloaded
                && download_matches(d, *item),
            ItemAction::PushStrm(s) => category_of(*config, *item) == Category::Streamed
                && strm_matches(s, *item),
        }),
{
    if item.name.as_str().is_empty() || item.path.as_str().is_empty() {
        return ItemAction::NoOutput;
    }
    if item.is_dir {
        return ItemAction::NoOutput;
    }
    if !has_prefix(item.path.as_str(), config.pan_media_dir.as_str()) {
        if config.detail_log {
            let reason = String::from_str("path not under the remote media directory");
            return ItemAction::PushSkip(
                SkipResult { path_in_pan: item.path.clone(), reason },
            );
        }
        return ItemAction::NoOutput;
    }
    let ext = file_extension(item.name.as_str());
    let in_dl = ext_in_set(dl_set, &ext);
    proof {
        lemma_set_equiv(config.download_mediaext@, dl_set@, ext@);
        lemma_set_equiv(config.rmt_mediaext@, rmt_set@, ext@);
    }
    if config.auto_download_mediainfo && in_dl {
        if item.pickcode.as_str().is_empty() {
            let reason = String::from_str("no pickcode, cannot download media info");
            return ItemAction::PushFail(
                FailResult { path_in_pan: item.path.clone(), reason },
            );
        }
        if !is_valid_pickcode(item.pickcode.as_str()) {
            let mut reason = String::from_str("invalid pickcode value: ");
            reason.append(item.pickcode.as_str());
            return ItemAction::PushFail(
                FailResult { path_in_pan: item.path.clone(), reason },
            );
        }
        return ItemAction::PushDownload(
            DownloadResult {
                path_in_pan: item.path.clone(),
                pickcode: item.pickcode.clone(),
                sha1: item.sha1.clone(),
            },
        );
    }
    let in_rmt = ext_in_set(rmt_set, &ext);
    if !in_rmt {
        if config.detail_log {
            let mut reason = String::from_str("extension ");
            reason.append(ext.as_str());
            reason.append(" not in the organizable media list");
            return ItemAction::PushSkip(
                SkipResult { path_in_pan: item.path.clone(), reason },
            );
        }
        return ItemAction::NoOutput;
    }
    if item.size < config.min_file_size {
        if config.detail_log {
            let mut reason = String::from_str("file size ");
            push_dec_u64(&mut reason, item.size);
            reason.append(" below minimum ");
            push_dec_u64(&mut reason, config.min_file_size);
            return ItemAction::PushSkip(
                SkipResult { path_in_pan: item.path.clone(), reason },
            );
        }
        return ItemAction::NoOutput;
    }
    if item.pickcode.as_str().is_empty() {
        let reason = String::from_str("no pickcode, cannot create stream reference");
        return ItemAction::PushFail(FailResult { path_in_pan: item.path.clone(), reason });
    }
    if !is_valid_pickcode(item.pickcode.as_str()) {
        let mut reason = String::from_str("invalid pickcode value: ");
        reason.append(item.pickcode.as_str());
        return ItemAction::PushFail(FailResult { path_in_pan: item.path.clone(), reason });
    }
    ItemAction::PushStrm(
        StrmResult {
            path_in_pan: item.path.clone(),
            pickcode: item.pickcode.clone(),
            original_file_name: item.name.clone(),
        },
    )
}

/// Classifies one batch: evaluates the decision chain on every item in
/// input order and returns the four result sequences.
pub fn process_batch_impl(config: &ProcessConfig, items: &Vec<BatchItem>) -> (r: PackedResult)
    ensures
        packed_matches(*config, items@, r),
{
    let rmt_set = normalize_ext_list(&config.rmt_mediaext);
    let dl_set = normalize_ext_list(&config.download_mediaext);
    let mut r = PackedResult {
        strm_results: Vec::new(),
        download_results: Vec::new(),
        fail_results: Vec::new(),
        skip_results: Vec::new(),
    };
    proof {
        lemma_category_take_zero(*config, items@);
    }
    let mut idx: usize = 0;
    while idx < items.len()
        invariant
            idx <= items@.len(),
            rmt_set@.len() == config.rmt_mediaext@.len(),
            forall|k: int|
                0 <= k < rmt_set@.len() ==> #[trigger] rmt_set@[k]@ == norm_ext(
                    config.rmt_mediaext@[k]@,
                ),
            dl_set@.len() == config.download_mediaext@.len(),
            forall|k: int|
                0 <= k < dl_set@.len() ==> #[trigger] dl_set@[k]@ == norm_ext(
                    config.download_mediaext@[k]@,
                ),
            packed_matches(*config, items@.take(idx as int), r),
        decreases items@.len() - idx,
    {
        let item = &items[idx];
        let ghost r_old = r;
        let action = classify_one(config, &rmt_set, &dl_set, item);
        match action {
            ItemAction::NoOutput => {
                proof {
                    lemma_step_none(*config, items@, idx as int, r);
                }
            },
            ItemAction::PushSkip(s) => {
                let ghost rec = s;
                r.skip_results.push(s);
                proof {
                    lemma_step_skip(*config, items@, idx as int, r_old, r, rec);
                }
            },
            ItemAction::PushFail(f) => {
                let ghost rec = f;
                r.fail_results.push(f);
                proof {
                    lemma_step_fail(*config, items@, idx as int, r_old, r, rec);
                }
            },
            ItemAction::PushDownload(d) => {
                let ghost rec = d;
                r.download_results.push(d);
                proof {
                    lemma_step_download(*config, items@, idx as int, r_old, r, rec);
                }
            },
            ItemAction::PushStrm(s) => {
                let ghost rec = s;
                r.strm_results.push(s);
                proof {
                    lemma_step_strm(*config, items@, idx as int, r_old, r, rec);
                }
            },
        }
        idx = idx + 1;
    }
    proof {
        assert(items@.take(items@.len() as int) =~= items@);
    }
    r
}

} // verus!
