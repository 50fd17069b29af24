//! Properties of the classifier that hold for every configuration and
//! every batch, stated and proved as laws of the library.

use vstd::prelude::*;
use vstd::seq_lib::*;

use crate::config::ProcessConfig;
use crate::item::BatchItem;
use crate::process::{
    category_of, downloaded_items, failed_items, in_ext_list, skipped_items, streamed_items,
    Category,
};
use crate::text::{
    drop_leading, drop_trailing, in_class, is_space, lemma_drop_leading_first,
    lemma_drop_leading_last, lemma_drop_trailing_last, lower, map_lower, trim, CharClass,
};
use crate::utils::{ext_of, norm_ext, path_in_root, strip_path, valid_pickcode};

verus! {

/// An item the decision chain considers at all: not a directory, with a
/// name and a path.
pub open spec fn item_considered(it: BatchItem) -> bool {
    &&& !it.is_dir
    &&& it.name@.len() > 0
    &&& it.path@.len() > 0
}

/// Law: a directory entry is dropped silently, whatever the configuration.
pub proof fn lemma_directory_dropped(cfg: ProcessConfig, item: BatchItem)
    requires
        item.is_dir,
    ensures
        category_of(cfg, item) == Category::Dropped,
{
}

/// Law: an item with an empty name or an empty path is dropped silently,
/// whatever the configuration.
pub proof fn lemma_unnamed_dropped(cfg: ProcessConfig, item: BatchItem)
    requires
        item.name@.len() == 0 || item.path@.len() == 0,
    ensures
        category_of(cfg, item) == Category::Dropped,
{
}

proof fn lemma_streamed_element(cfg: ProcessConfig, items: Seq<BatchItem>, j: int)
    requires
        0 <= j < streamed_items(cfg, items).len(),
    ensures
        category_of(cfg, streamed_items(cfg, items)[j]) == Category::Streamed,
    decreases items.len(),
{
    reveal(Seq::filter);
    if items.len() > 0 {
        let prev = streamed_items(cfg, items.drop_last());
        if j < prev.len() {
            lemma_streamed_element(cfg, items.drop_last(), j);
        }
    }
}

proof fn lemma_downloaded_element(cfg: ProcessConfig, items: Seq<BatchItem>, j: int)
    requires
        0 <= j < downloaded_items(cfg, items).len(),
    ensures
        category_of(cfg, downloaded_items(cfg, items)[j]) == Category::Downloaded,
    decreases items.len(),
{
    reveal(Seq::filter);
    if items.len() > 0 {
        let prev = downloaded_items(cfg, items.drop_last());
        if j < prev.len() {
            lemma_downloaded_element(cfg, items.drop_last(), j);
        }
    }
}

proof fn lemma_failed_element(cfg: ProcessConfig, items: Seq<BatchItem>, j: int)
    requires
        0 <= j < failed_items(cfg, items).len(),
    ensures
        category_of(cfg, failed_items(cfg, items)[j]) == Category::Failed,
    decreases items.len(),
{
    reveal(Seq::filter);
    if items.len() > 0 {
        let prev = failed_items(cfg, items.drop_last());
        if j < prev.len() {
            lemma_failed_element(cfg, items.drop_last(), j);
        }
    }
}

proof fn lemma_skipped_element(cfg: ProcessConfig, items: Seq<BatchItem>, j: int)
    requires
        0 <= j < skipped_items(cfg, items).len(),
    ensures
        category_of(cfg, skipped_items(cfg, items)[j]) == Category::Skipped,
    decreases items.len(),
{
    reveal(Seq::filter);
    if items.len() > 0 {
        let prev = skipped_items(cfg, items.drop_last());
        if j < prev.len() {
            lemma_skipped_element(cfg, items.drop_last(), j);
        }
    }
}

/// Law: every item that reaches any output category is a considered item —
/// directories and items with an empty name or path appear in none of the
/// four sequences.
pub proof fn lemma_outputs_considered(cfg: ProcessConfig, items: Seq<BatchItem>, j: int)
    ensures
        0 <= j < streamed_items(cfg, items).len() ==> item_considered(
            streamed_items(cfg, items)[j],
        ),
        0 <= j < downloaded_items(cfg, items).len() ==> item_considered(
            downloaded_items(cfg, items)[j],
        ),
        0 <= j < failed_items(cfg, items).len() ==> item_considered(failed_items(cfg, items)[j]),
        0 <= j < skipped_items(cfg, items).len() ==> item_considered(skipped_items(cfg, items)[j]),
{
    if 0 <= j < streamed_items(cfg, items).len() {
        lemma_streamed_element(cfg, items, j);
    }
    if 0 <= j < downloaded_items(cfg, items).len() {
        lemma_downloaded_element(cfg, items, j);
    }
    if 0 <= j < failed_items(cfg, items).len() {
        lemma_failed_element(cfg, items, j);
    }
    if 0 <= j < skipped_items(cfg, items).len() {
        lemma_skipped_element(cfg, items, j);
    }
}

/// The same configuration with the skip-record switch set to `b`.
pub open spec fn with_detail(cfg: ProcessConfig, b: bool) -> ProcessConfig {
    ProcessConfig {
        pan_media_dir: cfg.pan_media_dir,
        rmt_mediaext: cfg.rmt_mediaext,
        download_mediaext: cfg.download_mediaext,
        min_file_size: cfg.min_file_size,
        auto_download_mediainfo: cfg.auto_download_mediainfo,
        detail_log: b,
    }
}

/// Law: `detail_log` never affects how one item is routed to stream,
/// download or fail; with the switch off, would-be skips become silent
/// drops and nothing is ever skipped.
pub proof fn lemma_detail_log_routing(cfg: ProcessConfig, item: BatchItem)
    ensures
        category_of(with_detail(cfg, false), item) != Category::Skipped,
        category_of(cfg, item) == Category::Skipped ==> category_of(with_detail(cfg, false), item)
            == Category::Dropped,
        category_of(cfg, item) != Category::Skipped ==> category_of(with_detail(cfg, false), item)
            == category_of(cfg, item),
{
}

/// Law: with the skip-record switch off, the skip sequence of any batch is
/// empty, while the stream, download and fail sequences are exactly those
/// of the batch with the switch on.
pub proof fn lemma_detail_log_batch(cfg: ProcessConfig, items: Seq<BatchItem>)
    ensures
        skipped_items(with_detail(cfg, false), items).len() == 0,
        streamed_items(with_detail(cfg, false), items) == streamed_items(cfg, items),
        downloaded_items(with_detail(cfg, false), items) == downloaded_items(cfg, items),
        failed_items(with_detail(cfg, false), items) == failed_items(cfg, items),
    decreases items.len(),
{
    reveal(Seq::filter);
    if items.len() > 0 {
        lemma_detail_log_batch(cfg, items.drop_last());
        lemma_detail_log_routing(cfg, items.last());
    }
}

/// Law: classification is prefix-local.  The outputs of a batch are the
/// outputs of any prefix followed by the outputs of the remainder, so the
/// relative order of items within each category is their input order.
pub proof fn lemma_order_preserved(cfg: ProcessConfig, items: Seq<BatchItem>, k: int)
    requires
        0 <= k <= items.len(),
    ensures
        streamed_items(cfg, items) == streamed_items(cfg, items.take(k)) + streamed_items(
            cfg,
            items.skip(k),
        ),
        downloaded_items(cfg, items) == downloaded_items(cfg, items.take(k)) + downloaded_items(
            cfg,
            items.skip(k),
        ),
        failed_items(cfg, items) == failed_items(cfg, items.take(k)) + failed_items(
            cfg,
            items.skip(k),
        ),
        skipped_items(cfg, items) == skipped_items(cfg, items.take(k)) + skipped_items(
            cfg,
            items.skip(k),
        ),
    decreases items.len(),
{
    reveal(Seq::filter);
    if k == items.len() {
        assert(items.take(k) =~= items);
        assert(items.skip(k).len() == 0);
        assert(streamed_items(cfg, items) + streamed_items(cfg, items.skip(k)) =~= streamed_items(
            cfg,
            items,
        ));
        assert(downloaded_items(cfg, items) + downloaded_items(cfg, items.skip(k))
            =~= downloaded_items(cfg, items));
        assert(failed_items(cfg, items) + failed_items(cfg, items.skip(k)) =~= failed_items(
            cfg,
            items,
        ));
        assert(skipped_items(cfg, items) + skipped_items(cfg, items.skip(k)) =~= skipped_items(
            cfg,
            items,
        ));
    } else {
        let prev = items.drop_last();
        let e = items.last();
        assert(prev.take(k) =~= items.take(k));
        assert(items.skip(k).drop_last() =~= prev.skip(k));
        assert(items.skip(k).last() == e);
        lemma_order_preserved(cfg, prev, k);
        assert((streamed_items(cfg, items.take(k)) + streamed_items(cfg, prev.skip(k))).push(e)
            =~= streamed_items(cfg, items.take(k)) + streamed_items(cfg, prev.skip(k)).push(e));
        assert((downloaded_items(cfg, items.take(k)) + downloaded_items(cfg, prev.skip(k))).push(e)
            =~= downloaded_items(cfg, items.take(k)) + downloaded_items(cfg, prev.skip(k)).push(
                e,
            ));
        assert((failed_items(cfg, items.take(k)) + failed_items(cfg, prev.skip(k))).push(e)
            =~= failed_items(cfg, items.take(k)) + failed_items(cfg, prev.skip(k)).push(e));
        assert((skipped_items(cfg, items.take(k)) + skipped_items(cfg, prev.skip(k))).push(e)
            =~= skipped_items(cfg, items.take(k)) + skipped_items(cfg, prev.skip(k)).push(e));
    }
}

/// Law: an empty normalized root places no restriction at all.
pub proof fn lemma_empty_root_matches_all(path: Seq<char>, root: Seq<char>)
    requires
        strip_path(root).len() == 0,
    ensures
        path_in_root(path, root),
{
}

/// Law: the empty root string places no restriction: every non-directory,
/// named, pathed item passes the root check.
pub proof fn lemma_empty_string_root(path: Seq<char>, root: Seq<char>)
    requires
        root.len() == 0,
    ensures
        path_in_root(path, root),
{
    assert(strip_path(root).len() == 0);
}

/// Law: path matching respects segment boundaries — a nonempty root either
/// equals the stripped path or is followed in it by a separator.
pub proof fn lemma_prefix_segment_boundary(path: Seq<char>, root: Seq<char>)
    requires
        strip_path(root).len() > 0,
        path_in_root(path, root),
    ensures
        strip_path(path) == strip_path(root) || strip_path(path)[strip_path(root).len() as int]
            == '/',
{
}

proof fn lemma_lower_idem(c: char)
    ensures
        lower(lower(c)) == lower(c),
{
}

proof fn lemma_map_lower_idem(s: Seq<char>)
    ensures
        map_lower(map_lower(s)) == map_lower(s),
{
    assert(map_lower(map_lower(s)) =~= map_lower(s)) by {
        assert forall|j: int| 0 <= j < s.len() implies map_lower(map_lower(s))[j] == map_lower(
            s,
        )[j] by {
            lemma_lower_idem(s[j]);
        }
    }
}

proof fn lemma_drop_leading_lower(cls: CharClass, s: Seq<char>)
    requires
        forall|c: char| in_class(cls, lower(c)) == in_class(cls, c),
    ensures
        drop_leading(cls, map_lower(s)) == map_lower(drop_leading(cls, s)),
    decreases s.len(),
{
    if s.len() > 0 {
        assert(map_lower(s)[0] == lower(s[0]));
        if in_class(cls, s[0]) {
            assert(map_lower(s).drop_first() =~= map_lower(s.drop_first()));
            lemma_drop_leading_lower(cls, s.drop_first());
        }
    } else {
        assert(map_lower(s).len() == 0);
    }
}

proof fn lemma_drop_trailing_lower(cls: CharClass, s: Seq<char>)
    requires
        forall|c: char| in_class(cls, lower(c)) == in_class(cls, c),
    ensures
        drop_trailing(cls, map_lower(s)) == map_lower(drop_trailing(cls, s)),
    decreases s.len(),
{
    if s.len() > 0 {
        assert(map_lower(s).last() == lower(s.last()));
        if in_class(cls, s.last()) {
            assert(map_lower(s).drop_last() =~= map_lower(s.drop_last()));
            lemma_drop_trailing_lower(cls, s.drop_last());
        }
    } else {
        assert(map_lower(s).len() == 0);
    }
}

proof fn lemma_lower_keeps_classes(cls: CharClass)
    ensures
        forall|c: char| in_class(cls, lower(c)) == in_class(cls, c),
{
}

/// Law: extension normalization is case-insensitive — lowercasing the
/// configured extension first never changes its normal form.
pub proof fn lemma_norm_ext_case_insensitive(e: Seq<char>)
    ensures
        norm_ext(map_lower(e)) == norm_ext(e),
{
    lemma_lower_keeps_classes(CharClass::Space);
    lemma_lower_keeps_classes(CharClass::Dot);
    lemma_drop_leading_lower(CharClass::Space, e);
    lemma_drop_trailing_lower(CharClass::Space, drop_leading(CharClass::Space, e));
    assert(trim(map_lower(e)) == map_lower(trim(e)));
    lemma_drop_leading_lower(CharClass::Dot, trim(e));
    lemma_map_lower_idem(drop_leading(CharClass::Dot, trim(e)));
}

/// Law: extension normalization is idempotent — normalizing an already
/// normalized extension gives it back unchanged.
pub proof fn lemma_norm_ext_idempotent(e: Seq<char>)
    ensures
        norm_ext(norm_ext(e)) == norm_ext(e),
{
    let t = drop_leading(CharClass::Dot, trim(e));
    let l = map_lower(t);
    let n = seq!['.'] + l;
    assert(norm_ext(e) == n);
    assert(n[0] == '.');
    assert(n.len() == 1 + l.len());
    // Trimming the normal form changes nothing: it starts with a dot and,
    // when the core is nonempty, ends with the non-space last character
    // that trimming already kept.
    assert(drop_leading(CharClass::Space, n) == n);
    if l.len() == 0 {
        assert(n.last() == '.');
        assert(drop_trailing(CharClass::Space, n) == n);
    } else {
        assert(t.len() > 0);
        lemma_drop_leading_last(CharClass::Dot, trim(e));
        assert(t.last() == trim(e).last());
        lemma_drop_trailing_last(
            CharClass::Space,
            drop_leading(CharClass::Space, e),
        );
        assert(!is_space(trim(e).last()));
        assert(l.last() == lower(t.last()));
        assert(!is_space(l.last()));
        assert(n.last() == l.last());
        assert(drop_trailing(CharClass::Space, n) == n);
    }
    assert(trim(n) == n);
    // Stripping leading dots removes exactly the added dot: the core never
    // starts with one.
    assert(n.drop_first() =~= l);
    if l.len() == 0 {
        assert(drop_leading(CharClass::Dot, n) == l) by {
            reveal_with_fuel(drop_leading, 2);
        };
    } else {
        lemma_drop_leading_first(CharClass::Dot, trim(e));
        assert(t[0] != '.');
        assert(l[0] == lower(t[0]));
        assert(l[0] != '.');
        assert(drop_leading(CharClass::Dot, n) == l) by {
            reveal_with_fuel(drop_leading, 2);
        };
    }
    lemma_map_lower_idem(t);
    assert(norm_ext(n) == seq!['.'] + map_lower(l));
    assert(norm_ext(n) == n);
}

/// Law: the metadata-download diversion takes priority over stream
/// creation.  An item whose extension is in the download list, with the
/// diversion switch on and a valid pickcode, never lands in the stream
/// category; if the chain considers it at all, it lands in download.
pub proof fn lemma_download_priority(cfg: ProcessConfig, item: BatchItem)
    requires
        cfg.auto_download_mediainfo,
        in_ext_list(cfg.download_mediaext@, ext_of(item.name@)),
        in_ext_list(cfg.rmt_mediaext@, ext_of(item.name@)),
        valid_pickcode(item.pickcode@),
    ensures
        category_of(cfg, item) != Category::Streamed,
        (item_considered(item) && path_in_root(item.path@, cfg.pan_media_dir@)) ==> category_of(
            cfg,
            item,
        ) == Category::Downloaded,
{
    if item.pickcode@.len() == 0 {
        assert(trim(item.pickcode@).len() == 0);
    }
}

} // verus!

