//! Properties that hold across the library's operations, stated over the same
//! specifications that the operations' contracts use.
use vstd::prelude::*;
use crate::analysis::auto_accepts;
use crate::dedup::{combo_name, dedup_decision_spec, DedupDecision, KnownEntity};
use crate::embedding::{chunk_paragraphs, found_ids, plan_fold, planned_chunks, EntityInfo, CHUNK_SIZE_MIN};
use crate::cover::{largest_image_of, MIN_COVER_BYTES};
use crate::parser::detected_encoding;
use crate::segmentation::{chinese_fold, chinese_value};
use crate::embedding_task::{embed_fold, embedding_chunks};
use crate::epub::{after_last_slash, decoded_from, entities_decoded, entity_rules, rule_at};
use crate::text::{
    count_non_ws, is_blank, is_ws, lemma_count_le_len, lemma_split_bounds, lemma_trim_empty_iff_blank,
    lemma_trimmed_nonempty_bounds, lines, occurs_at, strip_cr, trim, trim_end, trim_start, trimmed_nonempty,
};
use crate::segmentation::{
    char_count_of, detected, fallback_groups, fallback_plan, heading_of, lemma_detected_skip, paragraphs,
    segment_plan, SegmentPlan, TARGET_CHAPTER_SIZE,
};
use crate::pattern::regex_compiles;
use crate::inbox::{card_action, count_kind, has_ignoring_case, merged_ignoring_case, merged_new, CardAction};
use crate::model::{
    card_status_name, card_status_of, chunk_type_name, chunk_type_of, trim_trailing_slashes,
    CardStatus, ChunkType,
};
use crate::parser::normalized_line_endings;
use crate::text::{join, replace_all, split, starts_with, lemma_join_split};
use crate::card_merge::{character_view, merged_character_view, CharacterCard, CharacterFields};
use crate::duplicates::{
    by_time, character_group_plan, duplicate_groups, distinct_keys, groups_of, members, setting_group_plan,
    take_in_characters, take_in_settings, time_slot, CharacterRecord, SettingRecord,
};
use crate::text::{byte_len, contains, lowercase};
use crate::context_builder::{
    chunk_end, last_para_break, last_sentence_end, query_chunks, query_chunks_from, QUERY_CHUNK_SIZE,
    context_entity_positions, entry_ids, entry_names, min_nat, names_at, relevant_positions, supplemented,
};
use crate::library::{cover_extension_of, cover_mime};
use crate::toc::{toc_plans, visit, visit_all, BookPages, ChapterPlan, TocEntry, TocState};

verus! {

// ---------------------------------------------------------------------------
// Text
// ---------------------------------------------------------------------------

/// Splitting a text at a (nonempty) separator and joining the pieces with it gives
/// back the text.
pub proof fn law_join_undoes_split(s: Seq<char>, sep: Seq<char>)
    requires
        sep.len() > 0,
    ensures
        join(split(s, sep), sep) == s,
{
    lemma_join_split(s, sep);
}

/// Replacing a pattern that starts with a character the text does not hold leaves
/// the text as it is.
proof fn lemma_replace_absent(s: Seq<char>, p: Seq<char>, r: Seq<char>)
    requires
        p.len() > 0,
        !s.contains(p[0]),
    ensures
        replace_all(s, p, r) == s,
    decreases s.len(),
{
    if s.len() > 0 {
        assert(s[0] != p[0]);
        assert(!starts_with(s, p)) by {
            if starts_with(s, p) {
                assert(s.subrange(0, p.len() as int)[0] == s[0]);
            }
        }
        assert(!s.drop_first().contains(p[0])) by {
            if s.drop_first().contains(p[0]) {
                let k = choose|k: int| 0 <= k < s.drop_first().len() && s.drop_first()[k] == p[0];
                assert(s[k + 1] == p[0]);
            }
        }
        lemma_replace_absent(s.drop_first(), p, r);
        assert(seq![s[0]] + s.drop_first() == s);
    }
}

/// Replacing the single character `c` by a text without `c` leaves no `c`.
proof fn lemma_replace_removes(s: Seq<char>, c: char, r: Seq<char>)
    requires
        !r.contains(c),
    ensures
        !replace_all(s, seq![c], r).contains(c),
    decreases s.len(),
{
    if s.len() > 0 {
        lemma_replace_removes(s.drop_first(), c, r);
        let rest = replace_all(s.drop_first(), seq![c], r);
        if starts_with(s, seq![c]) {
            assert(s.skip(1) == s.drop_first());
            assert forall|k: int| 0 <= k < (r + rest).len() implies (r + rest)[k] != c by {
                if k < r.len() {
                    assert(r[k] == (r + rest)[k]);
                } else {
                    assert(rest[k - r.len()] == (r + rest)[k]);
                }
            }
        } else {
            assert(s[0] != c) by {
                if s[0] == c {
                    assert(s.subrange(0, 1) == seq![c]);
                }
            }
            assert forall|k: int| 0 <= k < (seq![s[0]] + rest).len() implies (seq![s[0]]
                + rest)[k] != c by {
                if k > 0 {
                    assert(rest[k - 1] == (seq![s[0]] + rest)[k]);
                }
            }
        }
    }
}

/// Text with normalized line endings holds no carriage return.
pub proof fn law_normalized_text_has_no_carriage_return(s: Seq<char>)
    ensures
        !normalized_line_endings(s).contains('\r'),
{
    lemma_replace_removes(replace_all(s, seq!['\r', '\n'], seq!['\n']), '\r', seq!['\n']);
}

/// Normalizing line endings a second time changes nothing.
pub proof fn law_normalizing_line_endings_is_idempotent(s: Seq<char>)
    ensures
        normalized_line_endings(normalized_line_endings(s)) == normalized_line_endings(s),
{
    let t = normalized_line_endings(s);
    law_normalized_text_has_no_carriage_return(s);
    lemma_replace_absent(t, seq!['\r', '\n'], seq!['\n']);
    lemma_replace_absent(t, seq!['\r'], seq!['\n']);
}

proof fn lemma_no_rule_without_ampersand(s: Seq<char>, i: int, rules: Seq<(Seq<char>, char)>)
    requires
        0 <= i < s.len(),
        s[i] != '&',
        forall|k: int| 0 <= k < rules.len() ==> #[trigger] rules[k].0.len() > 0 && rules[k].0[0] == '&',
    ensures
        rule_at(s, i, rules) is None,
    decreases rules.len(),
{
    if rules.len() > 0 {
        if occurs_at(s, rules[0].0, i) {
            assert(s.subrange(i, i + rules[0].0.len())[0] == s[i]);
        }
        assert forall|k: int| 0 <= k < rules.drop_first().len() implies #[trigger] rules.drop_first()[k].0.len() > 0
            && rules.drop_first()[k].0[0] == '&' by {
            assert(rules.drop_first()[k] == rules[k + 1]);
        }
        lemma_no_rule_without_ampersand(s, i, rules.drop_first());
    }
}

proof fn lemma_decoded_without_ampersand(s: Seq<char>, i: int)
    requires
        0 <= i <= s.len(),
        !s.contains('&'),
    ensures
        decoded_from(s, i) == s.skip(i),
    decreases s.len() - i,
{
    if i < s.len() {
        let rules = entity_rules();
        assert forall|k: int| 0 <= k < rules.len() implies #[trigger] rules[k].0.len() > 0 && rules[k].0[0] == '&' by {
            assert(rules.len() == 17);
        }
        assert(s[i] != '&') by {
            if s[i] == '&' {
                assert(s.contains('&'));
            }
        }
        lemma_no_rule_without_ampersand(s, i, rules);
        lemma_decoded_without_ampersand(s, i + 1);
        assert(s.skip(i) =~= seq![s[i]] + s.skip(i + 1));
    }
}

/// Text without an ampersand has no entity to decode: decoding leaves it as it is.
pub proof fn law_text_without_ampersand_decodes_to_itself(s: Seq<char>)
    requires
        !s.contains('&'),
    ensures
        entities_decoded(s) == s,
{
    lemma_decoded_without_ampersand(s, 0);
    assert(s.skip(0) =~= s);
}

/// The file name taken from a path holds no `/`.
pub proof fn law_file_name_has_no_slash(path: Seq<char>)
    ensures
        !after_last_slash(path).contains('/'),
    decreases path.len(),
{
    if path.len() > 0 && path.last() != '/' {
        law_file_name_has_no_slash(path.drop_last());
        let a = after_last_slash(path.drop_last());
        assert forall|k: int| 0 <= k < a.push(path.last()).len() implies a.push(path.last())[k]
            != '/' by {
            if k < a.len() {
                assert(a.push(path.last())[k] == a[k]);
            }
        }
    }
}

/// A provider's base URL, once its trailing slashes are removed, does not end with a
/// slash, so the request path is joined to it with exactly the path's own slash.
pub proof fn law_base_url_has_no_trailing_slash(base: Seq<char>)
    ensures
        trim_trailing_slashes(base).len() == 0 || trim_trailing_slashes(base).last() != '/',
    decreases base.len(),
{
    if base.len() > 0 && base.last() == '/' {
        law_base_url_has_no_trailing_slash(base.drop_last());
    }
}

// ---------------------------------------------------------------------------
// Names of statuses and kinds
// ---------------------------------------------------------------------------

/// Reading back the name of a card status gives the status.
pub proof fn law_card_status_name_round_trip(s: CardStatus)
    ensures
        card_status_of(card_status_name(s)) == Some(s),
{
    reveal_strlit("pending");
    reveal_strlit("accepted");
    reveal_strlit("rejected");
    reveal_strlit("merged");
    assert("pending"@[0] != "accepted"@[0]);
    assert("pending"@[0] != "rejected"@[0]);
    assert("accepted"@[0] != "rejected"@[0]);
    assert("pending"@.len() != "merged"@.len());
    assert("accepted"@.len() != "merged"@.len());
    assert("rejected"@.len() != "merged"@.len());
}

/// Reading back the name of a chunk type gives the type.
pub proof fn law_chunk_type_name_round_trip(t: ChunkType)
    ensures
        chunk_type_of(chunk_type_name(t)) == Some(t),
{
    reveal_strlit("paragraph");
    reveal_strlit("entity");
    reveal_strlit("event");
    reveal_strlit("relationship");
    assert("paragraph"@[0] != "entity"@[0]);
    assert("paragraph"@[0] != "event"@[0]);
    assert("paragraph"@[0] != "relationship"@[0]);
    assert("entity"@[1] != "event"@[1]);
    assert("entity"@[0] != "relationship"@[0]);
    assert("event"@[0] != "relationship"@[0]);
}

// ---------------------------------------------------------------------------
// Cards
// ---------------------------------------------------------------------------

/// The automatic acceptance thresholds are nested: what `high` accepts, `medium`
/// accepts too, and what `medium` accepts, `low` accepts too; `off` accepts nothing.
pub proof fn law_auto_accept_thresholds_are_nested(confidence: Seq<char>)
    ensures
        auto_accepts(confidence, "high"@) ==> auto_accepts(confidence, "medium"@),
        auto_accepts(confidence, "medium"@) ==> auto_accepts(confidence, "low"@),
        !auto_accepts(confidence, "off"@),
{
    reveal_strlit("high");
    reveal_strlit("medium");
    reveal_strlit("low");
    reveal_strlit("off");
    assert("high"@.len() != "medium"@.len());
    assert("low"@[0] != "high"@[0] && "low"@[0] != "medium"@[0]);
    assert("off"@[0] != "high"@[0] && "off"@[0] != "medium"@[0] && "off"@[0] != "low"@[0]);
}

/// A name that combines several entities is never accepted: the duplicate check
/// calls it a combination, and accepting its card rejects it.
pub proof fn law_combined_names_are_rejected(
    name: Seq<char>,
    existing: Seq<KnownEntity>,
    similar: Seq<bool>,
    skip: bool,
    merge_with: Option<Seq<char>>,
    existing_ids: Seq<Seq<char>>,
    exact_match: bool,
)
    requires
        combo_name(name),
    ensures
        dedup_decision_spec(name, existing, similar) == DedupDecision::Combo,
        card_action(name, skip, merge_with, existing_ids, exact_match) is Reject,
{
}

/// The pending cards counted by kind never outnumber all pending cards.
pub proof fn law_inbox_kind_counts_within_total(types: Seq<Seq<char>>)
    ensures
        count_kind(types, "character"@) + count_kind(types, "setting"@) + count_kind(
            types,
            "event"@,
        ) <= types.len(),
    decreases types.len(),
{
    reveal_strlit("character");
    reveal_strlit("setting");
    reveal_strlit("event");
    assert("character"@.len() != "setting"@.len() && "character"@.len() != "event"@.len());
    assert("setting"@.len() != "event"@.len());
    if types.len() > 0 {
        law_inbox_kind_counts_within_total(types.drop_last());
    }
}

/// Merging keeps what the list held, in place.
proof fn lemma_merged_ignoring_case_extends(list: Seq<Seq<char>>, items: Seq<Seq<char>>)
    ensures
        merged_ignoring_case(list, items).len() >= list.len(),
        forall|k: int| 0 <= k < list.len() ==> merged_ignoring_case(list, items)[k] == list[k],
    decreases items.len(),
{
    if items.len() > 0 {
        lemma_merged_ignoring_case_extends(list, items.drop_last());
    }
}

/// After merging, the list holds every merged item, case ignored.
proof fn lemma_merged_ignoring_case_holds_items(list: Seq<Seq<char>>, items: Seq<Seq<char>>)
    ensures
        forall|j: int|
            0 <= j < items.len() ==> has_ignoring_case(
                merged_ignoring_case(list, items),
                #[trigger] items[j],
            ),
    decreases items.len(),
{
    if items.len() > 0 {
        let prev = items.drop_last();
        lemma_merged_ignoring_case_holds_items(list, prev);
        let m = merged_ignoring_case(list, prev);
        let m2 = merged_ignoring_case(list, items);
        assert forall|j: int| 0 <= j < items.len() implies has_ignoring_case(
            m2,
            #[trigger] items[j],
        ) by {
            if j < items.len() - 1 {
                assert(prev[j] == items[j]);
                assert(has_ignoring_case(m, prev[j]));
                let k = choose|k: int| 0 <= k < m.len() && lowercase_eq(m[k], prev[j]);
                assert(m2[k] == m[k]);
                assert(lowercase_eq(m2[k], items[j]));
            } else {
                if !has_ignoring_case(m, items.last()) {
                    assert(m2[m.len() as int] == items.last());
                    assert(lowercase_eq(m2[m.len() as int], items[j]));
                }
            }
        }
    }
}

/// Two texts are equal once lower-cased.
pub open spec fn lowercase_eq(a: Seq<char>, b: Seq<char>) -> bool {
    crate::text::lowercase(a) == crate::text::lowercase(b)
}

/// Merging items that the list already holds, case ignored, changes nothing.
proof fn lemma_merged_ignoring_case_held(list: Seq<Seq<char>>, items: Seq<Seq<char>>)
    requires
        forall|j: int| 0 <= j < items.len() ==> has_ignoring_case(list, #[trigger] items[j]),
    ensures
        merged_ignoring_case(list, items) == list,
    decreases items.len(),
{
    if items.len() > 0 {
        let prev = items.drop_last();
        assert forall|j: int| 0 <= j < prev.len() implies has_ignoring_case(list, #[trigger] prev[j]) by {
            assert(prev[j] == items[j]);
        }
        lemma_merged_ignoring_case_held(list, prev);
        assert(has_ignoring_case(list, items[items.len() - 1]));
    }
}

/// Merging a card's aliases or traits into an entity a second time adds nothing.
pub proof fn law_merging_ignoring_case_twice_adds_nothing(list: Seq<Seq<char>>, items: Seq<Seq<char>>)
    ensures
        merged_ignoring_case(merged_ignoring_case(list, items), items) == merged_ignoring_case(
            list,
            items,
        ),
        forall|k: int| 0 <= k < list.len() ==> merged_ignoring_case(list, items)[k] == list[k],
{
    lemma_merged_ignoring_case_holds_items(list, items);
    lemma_merged_ignoring_case_held(merged_ignoring_case(list, items), items);
    lemma_merged_ignoring_case_extends(list, items);
}

proof fn lemma_merged_new_extends(list: Seq<Seq<char>>, items: Seq<Seq<char>>)
    ensures
        merged_new(list, items).len() >= list.len(),
        forall|k: int| 0 <= k < list.len() ==> merged_new(list, items)[k] == list[k],
    decreases items.len(),
{
    if items.len() > 0 {
        lemma_merged_new_extends(list, items.drop_last());
    }
}

proof fn lemma_merged_new_holds_items(list: Seq<Seq<char>>, items: Seq<Seq<char>>)
    ensures
        forall|j: int| 0 <= j < items.len() ==> merged_new(list, items).contains(#[trigger] items[j]),
    decreases items.len(),
{
    if items.len() > 0 {
        let prev = items.drop_last();
        lemma_merged_new_holds_items(list, prev);
        let m = merged_new(list, prev);
        let m2 = merged_new(list, items);
        assert forall|j: int| 0 <= j < items.len() implies m2.contains(#[trigger] items[j]) by {
            if j < items.len() - 1 {
                assert(prev[j] == items[j]);
                assert(m.contains(prev[j]));
                let k = choose|k: int| 0 <= k < m.len() && m[k] == prev[j];
                assert(m2[k] == m[k]);
            } else {
                if !m.contains(items.last()) {
                    assert(m2[m.len() as int] == items.last());
                }
            }
        }
    }
}

proof fn lemma_merged_new_held(list: Seq<Seq<char>>, items: Seq<Seq<char>>)
    requires
        forall|j: int| 0 <= j < items.len() ==> list.contains(#[trigger] items[j]),
    ensures
        merged_new(list, items) == list,
    decreases items.len(),
{
    if items.len() > 0 {
        let prev = items.drop_last();
        assert forall|j: int| 0 <= j < prev.len() implies list.contains(#[trigger] prev[j]) by {
            assert(prev[j] == items[j]);
        }
        lemma_merged_new_held(list, prev);
        assert(list.contains(items[items.len() - 1]));
    }
}

/// Merging a card's evidence into an entity a second time adds nothing, and merging
/// keeps the evidence the entity had, in place.
pub proof fn law_merging_evidence_twice_adds_nothing(list: Seq<Seq<char>>, items: Seq<Seq<char>>)
    ensures
        merged_new(merged_new(list, items), items) == merged_new(list, items),
        forall|k: int| 0 <= k < list.len() ==> merged_new(list, items)[k] == list[k],
{
    lemma_merged_new_holds_items(list, items);
    lemma_merged_new_held(merged_new(list, items), items);
    lemma_merged_new_extends(list, items);
}

// ---------------------------------------------------------------------------
// Chunks
// ---------------------------------------------------------------------------

proof fn lemma_plan_fold_numbered(paras: Seq<Seq<char>>, ents: Seq<EntityInfo>)
    ensures
        plan_fold(paras, ents).5 == plan_fold(paras, ents).0.len(),
        plan_fold(paras, ents).3 <= plan_fold(paras, ents).4,
        forall|k: int|
            0 <= k < plan_fold(paras, ents).0.len() ==> (#[trigger] plan_fold(paras, ents).0[k]).1
                == k && plan_fold(paras, ents).0[k].2 <= plan_fold(paras, ents).0[k].3,
    decreases paras.len(),
{
    if paras.len() > 0 {
        lemma_plan_fold_numbered(paras.drop_last(), ents);
    }
}

/// The chunks planned for a chapter are numbered 0, 1, 2, ... in order, and each
/// starts no later than it ends.
pub proof fn law_planned_chunks_numbered_in_order(text: Seq<char>, ents: Seq<EntityInfo>)
    ensures
        forall|i: int|
            0 <= i < planned_chunks(text, ents).len() ==> (#[trigger] planned_chunks(text, ents)[i]).1
                == i && planned_chunks(text, ents)[i].2 <= planned_chunks(text, ents)[i].3,
{
    let st = plan_fold(chunk_paragraphs(text), ents);
    lemma_plan_fold_numbered(chunk_paragraphs(text), ents);
    let pl = planned_chunks(text, ents);
    if st.1.len() < CHUNK_SIZE_MIN && st.1.len() > 0 && st.0.len() > 0 {
        assert forall|i: int| 0 <= i < pl.len() implies (#[trigger] pl[i]).1 == i && pl[i].2
            <= pl[i].3 by {
            if i < st.0.len() - 1 {
                assert(pl[i] == st.0[i]);
            } else {
                assert(st.0[i].3 <= st.4) by {
                    lemma_plan_fold_ends(chunk_paragraphs(text), ents);
                }
            }
        }
    }
}

proof fn lemma_plan_fold_ends(paras: Seq<Seq<char>>, ents: Seq<EntityInfo>)
    ensures
        forall|k: int|
            0 <= k < plan_fold(paras, ents).0.len() ==> (#[trigger] plan_fold(paras, ents).0[k]).3
                <= plan_fold(paras, ents).4,
    decreases paras.len(),
{
    if paras.len() > 0 {
        lemma_plan_fold_ends(paras.drop_last(), ents);
        let prev = plan_fold(paras.drop_last(), ents);
        let st = plan_fold(paras, ents);
        assert(st.4 >= prev.4);
        assert forall|k: int| 0 <= k < st.0.len() implies (#[trigger] st.0[k]).3 <= st.4 by {
            if k < prev.0.len() {
                assert(st.0[k] == prev.0[k]);
            }
        }
    }
}

proof fn lemma_embed_fold_numbered(paras: Seq<Seq<char>>)
    ensures
        embed_fold(paras).4 == embed_fold(paras).0.len(),
        embed_fold(paras).2 <= embed_fold(paras).3,
        forall|k: int|
            0 <= k < embed_fold(paras).0.len() ==> (#[trigger] embed_fold(paras).0[k]).1 == k
                && embed_fold(paras).0[k].2 <= embed_fold(paras).0[k].3
                && embed_fold(paras).0[k].3 <= embed_fold(paras).3,
    decreases paras.len(),
{
    if paras.len() > 0 {
        lemma_embed_fold_numbered(paras.drop_last());
    }
}

/// The chunks of a chapter to embed are numbered 0, 1, 2, ... in order, and each
/// starts no later than it ends.
pub proof fn law_embedding_chunks_numbered_in_order(text: Seq<char>)
    ensures
        forall|i: int|
            0 <= i < embedding_chunks(text).len() ==> (#[trigger] embedding_chunks(text)[i]).1 == i
                && embedding_chunks(text)[i].2 <= embedding_chunks(text)[i].3,
{
    let st = embed_fold(chunk_paragraphs(text));
    lemma_embed_fold_numbered(chunk_paragraphs(text));
    let pl = embedding_chunks(text);
    if st.1.len() < CHUNK_SIZE_MIN && st.1.len() > 0 && st.0.len() > 0 {
        assert forall|i: int| 0 <= i < pl.len() implies (#[trigger] pl[i]).1 == i && pl[i].2
            <= pl[i].3 by {
            if i < st.0.len() - 1 {
                assert(pl[i] == st.0[i]);
            }
        }
    }
}

// ---------------------------------------------------------------------------
// EPUB chapters
// ---------------------------------------------------------------------------

/// Every chapter counts at least 10 characters.
pub open spec fn chapters_long_enough(ps: Seq<ChapterPlan>) -> bool {
    forall|i: int| 0 <= i < ps.len() ==> #[trigger] ps[i].2 >= 10
}

proof fn lemma_visit_long_enough(book: BookPages, e: TocEntry, parent: Option<Seq<char>>, st: TocState)
    requires
        chapters_long_enough(st.0),
    ensures
        chapters_long_enough(visit(book, e, parent, st).0),
    decreases e,
{
    let cp = e.content@;
    if e.children@.len() > 0 {
        assert(decreases_to!(e => e.children));
        let st1 = if cp.len() > 0 && !st.1.contains(cp) {
            let g = crate::toc::collect(book, cp, Some(e.children@[0].content@), st.1);
            if g.1 > 20 {
                (st.0.push((Some(crate::text::trim(e.label@)), g.0, g.1, None)), g.2)
            } else {
                (st.0, g.2)
            }
        } else {
            st
        };
        assert(chapters_long_enough(st1.0));
        lemma_visit_all_long_enough(book, e.children@, Some(crate::text::trim(e.label@)), st1);
    }
}

proof fn lemma_visit_all_long_enough(
    book: BookPages,
    es: Seq<TocEntry>,
    parent: Option<Seq<char>>,
    st: TocState,
)
    requires
        chapters_long_enough(st.0),
    ensures
        chapters_long_enough(visit_all(book, es, parent, st).0),
    decreases es,
{
    if es.len() > 0 {
        lemma_visit_long_enough(book, es[0], parent, st);
        lemma_visit_all_long_enough(book, es.drop_first(), parent, visit(book, es[0], parent, st));
    }
}

/// Every chapter taken along a table of contents counts at least 10 characters
/// (a volume more than 20): shorter pages are passed over.
pub proof fn law_contents_chapters_hold_ten_characters(book: BookPages, toc: Seq<TocEntry>)
    ensures
        chapters_long_enough(toc_plans(book, toc)),
{
    lemma_visit_all_long_enough(book, toc, None, (seq![], seq![]));
}

// ---------------------------------------------------------------------------
// Duplicates
// ---------------------------------------------------------------------------

proof fn lemma_members(keys: Seq<Seq<char>>, k: Seq<char>, n: int)
    requires
        n <= keys.len(),
    ensures
        forall|j: int|
            0 <= j < members(keys, k, n).len() ==> 0 <= #[trigger] members(keys, k, n)[j] < n
                && keys[members(keys, k, n)[j]] == k,
    decreases n,
{
    if n > 0 {
        lemma_members(keys, k, n - 1);
        let prev = members(keys, k, n - 1);
        if keys[n - 1] == k {
            assert forall|j: int| 0 <= j < members(keys, k, n).len() implies 0 <= #[trigger] members(
                keys,
                k,
                n,
            )[j] < n && keys[members(keys, k, n)[j]] == k by {
                if j < prev.len() {
                    assert(members(keys, k, n)[j] == prev[j]);
                }
            }
        }
    }
}

proof fn lemma_time_slot_bound(times: Seq<Seq<char>>, sorted: Seq<int>, i: int)
    ensures
        0 <= time_slot(times, sorted, i) <= sorted.len(),
    decreases sorted.len(),
{
    if sorted.len() > 0 {
        lemma_time_slot_bound(times, sorted.drop_first(), i);
    }
}

proof fn lemma_by_time(times: Seq<Seq<char>>, idx: Seq<int>)
    ensures
        by_time(times, idx).len() == idx.len(),
        forall|j: int| 0 <= j < idx.len() ==> idx.contains(#[trigger] by_time(times, idx)[j]),
    decreases idx.len(),
{
    if idx.len() > 0 {
        let prev = idx.drop_last();
        lemma_by_time(times, prev);
        let s = by_time(times, prev);
        let p = time_slot(times, s, idx.last());
        lemma_time_slot_bound(times, s, idx.last());
        assert forall|j: int| 0 <= j < idx.len() implies idx.contains(#[trigger] by_time(times, idx)[j]) by {
            if j < p {
                assert(prev.contains(s[j]));
            } else if j > p {
                assert(prev.contains(s[j - 1]));
            } else {
                assert(idx[idx.len() - 1] == idx.last());
            }
        }
    }
}

proof fn lemma_groups_of(keys: Seq<Seq<char>>, times: Seq<Seq<char>>, ks: Seq<Seq<char>>)
    ensures
        forall|g: int|
            0 <= g < groups_of(keys, times, ks).len() ==> {
                let grp = #[trigger] groups_of(keys, times, ks)[g];
                &&& grp.len() > 1
                &&& forall|j: int|
                    0 <= j < grp.len() ==> 0 <= #[trigger] grp[j] < keys.len() && keys[grp[j]] == keys[grp[0]]
            },
    decreases ks.len(),
{
    if ks.len() > 0 {
        lemma_groups_of(keys, times, ks.drop_last());
        let m = members(keys, ks.last(), keys.len() as int);
        lemma_members(keys, ks.last(), keys.len() as int);
        lemma_by_time(times, m);
        let b = by_time(times, m);
        assert forall|j: int| 0 <= j < b.len() implies 0 <= b[j] < keys.len() && keys[b[j]] == ks.last() by {
            assert(m.contains(b[j]));
            let q = choose|q: int| 0 <= q < m.len() && m[q] == b[j];
            assert(0 <= m[q] < keys.len() && keys[m[q]] == ks.last());
        }
        let prev = groups_of(keys, times, ks.drop_last());
        let all = groups_of(keys, times, ks);
        assert forall|g: int| 0 <= g < all.len() implies {
            let grp = #[trigger] all[g];
            &&& grp.len() > 1
            &&& forall|j: int|
                0 <= j < grp.len() ==> 0 <= #[trigger] grp[j] < keys.len() && keys[grp[j]] == keys[grp[0]]
        } by {
            if g < prev.len() {
                assert(all[g] == prev[g]);
            } else {
                assert(m.len() > 1);
                assert(all[g] == b);
                assert(b.len() > 1);
                assert(keys[b[0]] == ks.last());
            }
        }
    }
}

/// Every group of duplicates holds at least two entries, all of one name key (the
/// name trimmed and lowercased): only entities of the same name are merged.
pub proof fn law_duplicate_groups_share_a_name(keys: Seq<Seq<char>>, times: Seq<Seq<char>>)
    ensures
        forall|g: int|
            0 <= g < duplicate_groups(keys, times).len() ==> {
                let grp = #[trigger] duplicate_groups(keys, times)[g];
                &&& grp.len() > 1
                &&& forall|j: int|
                    0 <= j < grp.len() ==> 0 <= #[trigger] grp[j] < keys.len() && keys[grp[j]] == keys[grp[0]]
            },
{
    lemma_groups_of(keys, times, distinct_keys(keys, keys.len() as int));
}

// ---------------------------------------------------------------------------
// Cards joining characters
// ---------------------------------------------------------------------------

/// A card joined to a character changes nothing when joined again: the second time
/// it finds its name, aliases, traits and evidence held and its description and role
/// in place.
pub proof fn law_joining_a_card_twice_changes_nothing(
    existing: CharacterFields,
    card: CharacterCard,
    by_dedup: bool,
    joined: CharacterFields,
)
    requires
        character_view(joined) == merged_character_view(existing, card, by_dedup),
    ensures
        merged_character_view(joined, card, by_dedup) == character_view(joined),
{
    let name = crate::card_merge::card_name(card.name, card.title);
    let start = crate::inbox::texts(existing.aliases@);
    let with_name = if by_dedup && crate::text::lowercase(name) != crate::text::lowercase(existing.name@)
        && !has_ignoring_case(start, name) {
        start.push(name)
    } else {
        start
    };
    let card_aliases = crate::inbox::texts(card.aliases@);
    let aliases1 = merged_ignoring_case(with_name, card_aliases);
    law_merging_ignoring_case_twice_adds_nothing(with_name, card_aliases);
    lemma_merged_ignoring_case_extends(with_name, card_aliases);
    law_merging_ignoring_case_twice_adds_nothing(
        crate::inbox::texts(existing.traits@),
        crate::inbox::texts(card.traits@),
    );
    law_merging_evidence_twice_adds_nothing(
        crate::inbox::texts(existing.evidence@),
        crate::inbox::texts(card.evidence@),
    );
    assert(crate::inbox::texts(joined.aliases@) == aliases1);
    assert(joined.name@ == existing.name@);
    if by_dedup && crate::text::lowercase(name) != crate::text::lowercase(existing.name@) {
        if has_ignoring_case(start, name) {
            let k = choose|k: int| 0 <= k < start.len() && crate::text::lowercase(#[trigger] start[k])
                == crate::text::lowercase(name);
            assert(aliases1[k] == with_name[k]);
            assert(crate::text::lowercase(aliases1[k]) == crate::text::lowercase(name));
            assert(has_ignoring_case(aliases1, name));
        } else {
            assert(with_name[start.len() as int] == name);
            assert(aliases1[start.len() as int] == with_name[start.len() as int]);
            assert(crate::text::lowercase(aliases1[start.len() as int]) == crate::text::lowercase(name));
            assert(has_ignoring_case(aliases1, name));
        }
    }
}


// ---------------------------------------------------------------------------
// Covers
// ---------------------------------------------------------------------------

/// A cover stored at import as PNG, JPEG, GIF or WebP is served back with the MIME
/// type it was stored with.
pub proof fn law_stored_cover_keeps_its_mime(mime: Seq<char>)
    requires
        mime == "image/png"@ || mime == "image/jpeg"@ || mime == "image/gif"@ || mime == "image/webp"@,
    ensures
        cover_mime(cover_extension_of(mime)) == mime,
{
    reveal_strlit("image/png");
    reveal_strlit("image/jpeg");
    reveal_strlit("image/gif");
    reveal_strlit("image/webp");
    reveal_strlit("png");
    reveal_strlit("jpg");
    reveal_strlit("jpeg");
    reveal_strlit("gif");
    reveal_strlit("webp");
    reveal_strlit("bin");
    assert("png"@[0] == 'p' && "jpg"@[0] == 'j' && "jpeg"@[0] == 'j' && "gif"@[0] == 'g');
    assert("webp"@[0] == 'w');
    assert("png"@ != "jpg"@ && "png"@ != "jpeg"@);
    assert("gif"@ != "jpg"@ && "gif"@ != "jpeg"@ && "gif"@ != "png"@);
    assert("webp"@ != "jpg"@ && "webp"@ != "jpeg"@ && "webp"@ != "png"@ && "webp"@ != "gif"@);
    assert("image/png"@[6] == 'p' && "image/jpeg"@[6] == 'j' && "image/gif"@[6] == 'g');
    assert("image/webp"@[6] == 'w');
    assert("image/jpeg"@ != "image/png"@);
    assert("image/gif"@ != "image/png"@ && "image/gif"@ != "image/jpeg"@);
    assert("image/webp"@ != "image/png"@ && "image/webp"@ != "image/jpeg"@ && "image/webp"@ != "image/gif"@);
}

// ---------------------------------------------------------------------------
// Analysis context
// ---------------------------------------------------------------------------

proof fn lemma_relevant_positions_increase(ids: Seq<Seq<char>>, relevant: Seq<Seq<char>>, upto: int)
    requires
        0 <= upto,
    ensures
        forall|i: int|
            0 <= i < relevant_positions(ids, relevant, upto).len() ==> 0 <= #[trigger] relevant_positions(
                ids,
                relevant,
                upto,
            )[i] < upto,
        forall|i: int, j: int|
            0 <= i < j < relevant_positions(ids, relevant, upto).len() ==> relevant_positions(ids, relevant, upto)[i]
                < relevant_positions(ids, relevant, upto)[j],
    decreases upto,
{
    if upto > 0 {
        lemma_relevant_positions_increase(ids, relevant, upto - 1);
        let prev = relevant_positions(ids, relevant, upto - 1);
        let r = relevant_positions(ids, relevant, upto);
        if relevant.contains(ids[upto - 1]) {
            assert(r == prev.push(upto - 1));
            assert forall|i: int| 0 <= i < r.len() implies 0 <= #[trigger] r[i] < upto by {
                if i < prev.len() {
                    assert(r[i] == prev[i]);
                }
            }
            assert forall|i: int, j: int| 0 <= i < j < r.len() implies r[i] < r[j] by {
                assert(r[i] == prev[i]);
            }
        } else {
            assert(r == prev);
        }
    }
}

proof fn lemma_supplemented(names: Seq<Seq<char>>, taken: Seq<Seq<char>>, chosen: Seq<int>, max: nat, k: nat)
    requires
        k <= names.len(),
        chosen.len() <= max,
        forall|i: int| 0 <= i < chosen.len() ==> 0 <= #[trigger] chosen[i] < names.len(),
        forall|i: int, j: int| 0 <= i < j < chosen.len() ==> chosen[i] != chosen[j],
        taken == names_at(names, chosen),
    ensures
        chosen.len() <= supplemented(names, taken, chosen, max, k).len() <= max,
        forall|i: int| 0 <= i < chosen.len() ==> #[trigger] supplemented(names, taken, chosen, max, k)[i] == chosen[i],
        forall|i: int|
            chosen.len() <= i < supplemented(names, taken, chosen, max, k).len() ==> names.len() - k
                <= #[trigger] supplemented(names, taken, chosen, max, k)[i] < names.len(),
        forall|i: int, j: int|
            0 <= i < j < supplemented(names, taken, chosen, max, k).len() ==> supplemented(names, taken, chosen, max, k)[i]
                != supplemented(names, taken, chosen, max, k)[j],
    decreases k,
{
    if k > 0 {
        lemma_supplemented(names, taken, chosen, max, (k - 1) as nat);
        let prev = supplemented(names, taken, chosen, max, (k - 1) as nat);
        let p = names.len() - k;
        if !taken.contains(names[p]) && prev.len() < max {
            assert forall|i: int| 0 <= i < prev.len() implies prev[i] != p by {
                if i < chosen.len() {
                    if chosen[i] == p {
                        assert(taken[i] == names[p]);
                    }
                }
            }
            let r = prev.push(p);
            assert(r == supplemented(names, taken, chosen, max, k));
            assert forall|i: int, j: int| 0 <= i < j < r.len() implies r[i] != r[j] by {
                if j == prev.len() {
                    assert(r[i] == prev[i]);
                }
            }
        }
    }
}

/// The entities chosen for an analysis context are at most `max`, none chosen
/// twice, each a stored entity.
pub proof fn law_context_entities_are_few_and_distinct(
    entries: Seq<(String, String)>,
    relevant: Seq<Seq<char>>,
    max: nat,
)
    ensures
        context_entity_positions(entries, relevant, max).len() <= max,
        forall|i: int|
            0 <= i < context_entity_positions(entries, relevant, max).len() ==> 0
                <= #[trigger] context_entity_positions(entries, relevant, max)[i] < entries.len(),
        forall|i: int, j: int|
            0 <= i < j < context_entity_positions(entries, relevant, max).len() ==> context_entity_positions(
                entries,
                relevant,
                max,
            )[i] != context_entity_positions(entries, relevant, max)[j],
{
    let ids = entry_ids(entries);
    let names = entry_names(entries);
    let found = relevant_positions(ids, relevant, entries.len() as int);
    lemma_relevant_positions_increase(ids, relevant, entries.len() as int);
    let first = found.take(min_nat(max, found.len()) as int);
    assert forall|i: int| 0 <= i < first.len() implies 0 <= #[trigger] first[i] < names.len() by {
        assert(first[i] == found[i]);
    }
    assert forall|i: int, j: int| 0 <= i < j < first.len() implies first[i] != first[j] by {
        assert(first[i] == found[i] && first[j] == found[j]);
    }
    lemma_supplemented(names, names_at(names, first), first, max, min_nat(2 * max, entries.len()));
}


proof fn lemma_last_para_break_within(s: Seq<char>, lo: int, hi: int)
    ensures
        match last_para_break(s, lo, hi) {
            Some(i) => lo <= i < hi,
            None => true,
        },
    decreases hi - lo,
{
    if hi > lo && !(hi < s.len() && s[hi - 1] == '\n' && s[hi] == '\n') {
        lemma_last_para_break_within(s, lo, hi - 1);
    }
}

proof fn lemma_last_sentence_end_within(s: Seq<char>, lo: int, hi: int)
    ensures
        match last_sentence_end(s, lo, hi) {
            Some(i) => lo <= i < hi,
            None => true,
        },
    decreases hi - lo,
{
    if hi > lo && !crate::context_builder::is_sentence_end(s[hi - 1]) {
        lemma_last_sentence_end_within(s, lo, hi - 1);
    }
}

proof fn lemma_query_chunks_from_short(s: Seq<char>, start: int)
    ensures
        forall|i: int|
            0 <= i < query_chunks_from(s, start).len() ==> 0 < #[trigger] query_chunks_from(s, start)[i].len()
                <= QUERY_CHUNK_SIZE + 1,
    decreases s.len() - start,
{
    if !(start >= s.len() || start < 0 || chunk_end(s, start) <= start || chunk_end(s, start) > s.len()) {
        let e = chunk_end(s, start);
        let end = if start + QUERY_CHUNK_SIZE < s.len() {
            start + QUERY_CHUNK_SIZE
        } else {
            s.len() as int
        };
        lemma_last_para_break_within(s, start, end);
        lemma_last_sentence_end_within(s, start, end);
        assert(e <= end + 1);
        lemma_query_chunks_from_short(s, e);
        let piece = s.subrange(start, e);
        let rest = query_chunks_from(s, e);
        if !crate::text::is_blank(piece) {
            let r = seq![piece] + rest;
            assert forall|i: int| 0 <= i < r.len() implies 0 < #[trigger] r[i].len() <= QUERY_CHUNK_SIZE + 1 by {
                if i > 0 {
                    assert(r[i] == rest[i - 1]);
                }
            }
        }
    }
}

/// The query texts a chapter is split into are never empty, and a long chapter's
/// pieces hold at most 1501 characters (1500, one more where a blank line straddles
/// the cut); a chapter of at most 1500 characters is one piece.
pub proof fn law_query_chunks_are_short(s: Seq<char>)
    ensures
        forall|i: int|
            0 <= i < query_chunks(s).len() ==> 0 < #[trigger] query_chunks(s)[i].len() <= QUERY_CHUNK_SIZE + 1,
        0 < s.len() <= QUERY_CHUNK_SIZE ==> query_chunks(s) == seq![s],
{
    if s.len() > QUERY_CHUNK_SIZE {
        lemma_query_chunks_from_short(s, 0);
    }
}


// ---------------------------------------------------------------------------
// Chapter segmentation
// ---------------------------------------------------------------------------

proof fn lemma_count_concat(a: Seq<char>, b: Seq<char>)
    ensures
        count_non_ws(a + b) == count_non_ws(a) + count_non_ws(b),
    decreases b.len(),
{
    if b.len() > 0 {
        lemma_count_concat(a, b.drop_last());
        assert((a + b).drop_last() =~= a + b.drop_last());
        assert((a + b).last() == b.last());
    } else {
        assert(a + b =~= a);
    }
}

proof fn lemma_count_join(ps: Seq<Seq<char>>, sep: Seq<char>)
    ensures
        forall|k: int| 0 <= k < ps.len() ==> count_non_ws(#[trigger] ps[k]) <= count_non_ws(join(ps, sep)),
        count_non_ws(sep) == 0 && (forall|k: int| 0 <= k < ps.len() ==> count_non_ws(#[trigger] ps[k]) == 0)
            ==> count_non_ws(join(ps, sep)) == 0,
    decreases ps.len(),
{
    if ps.len() > 1 {
        let prev = ps.drop_last();
        lemma_count_join(prev, sep);
        let j = join(prev, sep);
        lemma_count_concat(j, sep);
        lemma_count_concat(j + sep, ps.last());
        assert(join(ps, sep) == j + sep + ps.last());
        assert forall|k: int| 0 <= k < ps.len() implies count_non_ws(#[trigger] ps[k]) <= count_non_ws(join(ps, sep)) by {
            if k < ps.len() - 1 {
                assert(ps[k] == prev[k]);
            }
        }
        if count_non_ws(sep) == 0 && (forall|k: int| 0 <= k < ps.len() ==> count_non_ws(#[trigger] ps[k]) == 0) {
            assert forall|k: int| 0 <= k < prev.len() implies count_non_ws(#[trigger] prev[k]) == 0 by {
                assert(prev[k] == ps[k]);
            }
            assert(count_non_ws(ps[ps.len() - 1]) == 0);
        }
    }
}

proof fn lemma_blank_count(s: Seq<char>)
    ensures
        is_blank(s) == (count_non_ws(s) == 0),
    decreases s.len(),
{
    if s.len() > 0 {
        let prev = s.drop_last();
        lemma_blank_count(prev);
        if is_blank(s) {
            assert forall|i: int| 0 <= i < prev.len() implies is_ws(#[trigger] prev[i]) by {
                assert(prev[i] == s[i]);
            }
            assert(is_ws(s[s.len() - 1]));
        }
        if is_blank(prev) && is_ws(s.last()) {
            assert forall|i: int| 0 <= i < s.len() implies is_ws(#[trigger] s[i]) by {
                if i < s.len() - 1 {
                    assert(s[i] == prev[i]);
                }
            }
        }
        if !is_ws(s.last()) {
            assert(!is_ws(s[s.len() - 1]));
        }
    }
}

proof fn lemma_trim_start_first(s: Seq<char>)
    ensures
        trim_start(s).len() > 0 ==> !is_ws(trim_start(s)[0]),
    decreases s.len(),
{
    if s.len() > 0 && is_ws(s[0]) {
        lemma_trim_start_first(s.drop_first());
    }
}

proof fn lemma_trim_end_prefix(s: Seq<char>)
    ensures
        trim_end(s).len() <= s.len(),
        trim_end(s) == s.subrange(0, trim_end(s).len() as int),
    decreases s.len(),
{
    if s.len() > 0 && is_ws(s.last()) {
        lemma_trim_end_prefix(s.drop_last());
        let m = trim_end(s).len() as int;
        assert(s.drop_last().subrange(0, m) =~= s.subrange(0, m));
    } else {
        assert(s.subrange(0, s.len() as int) =~= s);
    }
}

/// A nonempty trimmed text counts some character.
proof fn lemma_trim_counts(x: Seq<char>)
    ensures
        trim(x).len() > 0 ==> count_non_ws(trim(x)) > 0,
{
    let y = trim_start(x);
    lemma_trim_start_first(x);
    lemma_trim_end_prefix(y);
    if trim(x).len() > 0 {
        assert(trim(x)[0] == y[0]);
        lemma_blank_count(trim(x));
    }
}

proof fn lemma_trimmed_nonempty_facts(ps: Seq<Seq<char>>)
    ensures
        (trimmed_nonempty(ps).len() == 0) == (forall|k: int| 0 <= k < ps.len() ==> trim(#[trigger] ps[k]).len() == 0),
        forall|k: int| 0 <= k < trimmed_nonempty(ps).len() ==> count_non_ws(#[trigger] trimmed_nonempty(ps)[k]) > 0,
    decreases ps.len(),
{
    if ps.len() > 0 {
        let prev = ps.drop_last();
        lemma_trimmed_nonempty_facts(prev);
        lemma_trim_counts(ps.last());
        let t = trimmed_nonempty(ps);
        let tp = trimmed_nonempty(prev);
        if (forall|k: int| 0 <= k < ps.len() ==> trim(#[trigger] ps[k]).len() == 0) {
            assert forall|k: int| 0 <= k < prev.len() implies trim(#[trigger] prev[k]).len() == 0 by {
                assert(prev[k] == ps[k]);
            }
            assert(trim(ps[ps.len() - 1]).len() == 0);
        }
        if t.len() == 0 {
            assert forall|k: int| 0 <= k < ps.len() implies trim(#[trigger] ps[k]).len() == 0 by {
                if k < ps.len() - 1 {
                    assert(ps[k] == prev[k]);
                }
            }
        }
        assert forall|k: int| 0 <= k < t.len() implies count_non_ws(#[trigger] t[k]) > 0 by {
            if k < tp.len() {
                assert(t[k] == tp[k]);
            }
        }
    }
}

proof fn lemma_detected_counts(p: Seq<char>, ls: Seq<Seq<char>>, i: int)
    ensures
        forall|k: int| 0 <= k < detected(p, ls, i).len() ==> (#[trigger] detected(p, ls, i)[k]).2 > 0,
    decreases ls.len() - i,
{
    if !(i >= ls.len() || i < 0) {
        lemma_detected_counts(p, ls, i + 1);
        let rest = detected(p, ls, i + 1);
        let d = detected(p, ls, i);
        assert forall|k: int| 0 <= k < d.len() implies (#[trigger] d[k]).2 > 0 by {
            if d.len() == rest.len() + 1 {
                if k > 0 {
                    assert(d[k] == rest[k - 1]);
                }
            } else {
                assert(d == rest);
            }
        }
    }
}

proof fn lemma_fallback_groups(paras: Seq<Seq<char>>)
    ensures
        forall|k: int|
            0 <= k < fallback_groups(paras).0.len() ==> (#[trigger] fallback_groups(paras).0[k]).1 >= TARGET_CHAPTER_SIZE,
        paras.len() > 0 && char_count_of(paras.last()) > 0 ==> fallback_groups(paras).0.len() > 0
            || fallback_groups(paras).2 > 0,
    decreases paras.len(),
{
    if paras.len() > 0 {
        let prev = fallback_groups(paras.drop_last());
        lemma_fallback_groups(paras.drop_last());
        let g = fallback_groups(paras);
        assert forall|k: int| 0 <= k < g.0.len() implies (#[trigger] g.0[k]).1 >= TARGET_CHAPTER_SIZE by {
            if k < prev.0.len() {
                assert(g.0[k] == prev.0[k]);
            }
        }
    }
}

/// Lines of whitespace-only text are whitespace only.
proof fn lemma_blank_lines(content: Seq<char>)
    requires
        is_blank(content),
    ensures
        forall|k: int| 0 <= k < lines(content).len() ==> is_blank(#[trigger] lines(content)[k]),
{
    let ps = split(content, seq!['\n']);
    lemma_join_split(content, seq!['\n']);
    lemma_count_join(ps, seq!['\n']);
    lemma_blank_count(content);
    crate::text::lemma_split_nonempty(content, seq!['\n']);
    let ls = lines(content);
    assert forall|k: int| 0 <= k < ls.len() implies is_blank(#[trigger] ls[k]) by {
        if k < ps.len() - 1 {
            assert(ls[k] == strip_cr(ps[k]));
            assert(count_non_ws(ps[k]) == 0);
            if ps[k].len() > 0 && ps[k].last() == '\r' {
                assert(count_non_ws(ps[k]) == count_non_ws(ps[k].drop_last()) + 0);
            }
            lemma_blank_count(ls[k]);
        } else {
            assert(ls[k] == ps[ps.len() - 1]);
            assert(count_non_ws(ps[ps.len() - 1]) == 0);
            lemma_blank_count(ls[k]);
        }
    }
}

/// Each paragraph of a text counts some character, fewer than `u32::MAX`.
proof fn lemma_paragraph_counts(content: Seq<char>)
    requires
        content.len() < u32::MAX,
    ensures
        forall|k: int| 0 <= k < paragraphs(content).len() ==> char_count_of(#[trigger] paragraphs(content)[k]) > 0,
{
    let sep = seq!['\n', '\n'];
    let ps = split(content, sep);
    lemma_trimmed_nonempty_facts(ps);
    lemma_split_bounds(content, sep);
    lemma_trimmed_nonempty_bounds(ps, content.len());
    let t = paragraphs(content);
    assert forall|k: int| 0 <= k < t.len() implies char_count_of(#[trigger] t[k]) > 0 by {
        lemma_count_le_len(t[k]);
    }
}

proof fn lemma_blank_pieces(content: Seq<char>, sep: Seq<char>)
    requires
        sep.len() > 0,
        is_blank(content),
    ensures
        forall|k: int| 0 <= k < split(content, sep).len() ==> trim(#[trigger] split(content, sep)[k]).len() == 0,
{
    let ps = split(content, sep);
    lemma_join_split(content, sep);
    lemma_count_join(ps, sep);
    lemma_blank_count(content);
    assert forall|k: int| 0 <= k < ps.len() implies trim(#[trigger] ps[k]).len() == 0 by {
        assert(count_non_ws(ps[k]) <= count_non_ws(content));
        lemma_blank_count(ps[k]);
        lemma_trim_empty_iff_blank(ps[k]);
    }
}

proof fn lemma_nonblank_piece(content: Seq<char>, sep: Seq<char>)
    requires
        is_blank(sep),
        sep.len() > 0,
        !is_blank(content),
    ensures
        exists|k: int| 0 <= k < split(content, sep).len() && trim(#[trigger] split(content, sep)[k]).len() > 0,
{
    let ps = split(content, sep);
    lemma_join_split(content, sep);
    lemma_count_join(ps, sep);
    lemma_blank_count(content);
    lemma_blank_count(sep);
    assert(!(forall|k: int| 0 <= k < ps.len() ==> count_non_ws(#[trigger] ps[k]) == 0));
    let k = choose|k: int| 0 <= k < ps.len() && count_non_ws(#[trigger] ps[k]) != 0;
    lemma_blank_count(ps[k]);
    lemma_trim_empty_iff_blank(ps[k]);
}

proof fn lemma_piece_counts_in_text(content: Seq<char>, sep: Seq<char>)
    requires
        sep.len() > 0,
        exists|k: int| 0 <= k < split(content, sep).len() && trim(#[trigger] split(content, sep)[k]).len() > 0,
    ensures
        count_non_ws(content) > 0,
{
    let ps = split(content, sep);
    lemma_join_split(content, sep);
    lemma_count_join(ps, sep);
    let k = choose|k: int| 0 <= k < ps.len() && trim(#[trigger] ps[k]).len() > 0;
    lemma_trim_empty_iff_blank(ps[k]);
    lemma_blank_count(ps[k]);
    assert(count_non_ws(ps[k]) <= count_non_ws(content));
}

proof fn lemma_trimmed_empty_iff(ps: Seq<Seq<char>>)
    ensures
        (trimmed_nonempty(ps).len() == 0) == (forall|k: int| 0 <= k < ps.len() ==> trim(#[trigger] ps[k]).len() == 0),
{
    lemma_trimmed_nonempty_facts(ps);
}

/// A text has no paragraphs exactly when it is whitespace only.
proof fn lemma_paragraphs_blank(content: Seq<char>)
    ensures
        (paragraphs(content).len() == 0) == is_blank(content),
        paragraphs(content).len() > 0 ==> count_non_ws(content) > 0,
{
    let sep = seq!['\n', '\n'];
    let ps = split(content, sep);
    assert(is_blank(sep));
    lemma_trimmed_empty_iff(ps);
    if is_blank(content) {
        lemma_blank_pieces(content, sep);
    } else {
        lemma_nonblank_piece(content, sep);
        lemma_piece_counts_in_text(content, sep);
    }
}

/// Facts about the paragraphs of a text: there are none exactly when the text is
/// whitespace only, and each counts some character, fewer than `u32::MAX`.
proof fn lemma_paragraph_facts(content: Seq<char>)
    requires
        content.len() < u32::MAX,
    ensures
        (paragraphs(content).len() == 0) == is_blank(content),
        forall|k: int| 0 <= k < paragraphs(content).len() ==> char_count_of(#[trigger] paragraphs(content)[k]) > 0,
        paragraphs(content).len() > 0 ==> char_count_of(content) > 0,
{
    lemma_paragraph_counts(content);
    lemma_paragraphs_blank(content);
    lemma_count_le_len(content);
}

/// Chapter segmentation yields no empty chapter: every chapter counts some
/// character; and it yields nothing exactly when the text is whitespace only.
pub proof fn law_segments_are_never_empty(p: Seq<char>, content: Seq<char>)
    requires
        content.len() + TARGET_CHAPTER_SIZE <= u32::MAX,
    ensures
        forall|k: int| 0 <= k < segment_plan(p, content).len() ==> (#[trigger] segment_plan(p, content)[k]).2 > 0,
        (segment_plan(p, content).len() == 0) == is_blank(content),
{
    let ls = lines(content);
    let d = detected(p, ls, 0);
    lemma_detected_counts(p, ls, 0);
    lemma_paragraph_facts(content);
    let paras = paragraphs(content);
    if paras.len() > 0 {
        lemma_fallback_groups(paras);
        assert(char_count_of(paras[paras.len() - 1]) > 0);
    }
    let fb = fallback_plan(content);
    assert forall|k: int| 0 <= k < fb.len() implies (#[trigger] fb[k]).2 > 0 by {
        if paras.len() > 0 && char_count_of(content) >= crate::segmentation::SINGLE_CHAPTER_LIMIT {
            let g = fallback_groups(paras);
            let all = if g.2 > 0 {
                g.0.push((trim(g.1), g.2))
            } else {
                g.0
            };
            assert(fb[k].2 == all[k].1);
            if k < g.0.len() {
                assert(all[k] == g.0[k]);
            }
        }
    }
    assert(fb.len() == 0 <==> paras.len() == 0) by {
        if paras.len() > 0 && char_count_of(content) >= crate::segmentation::SINGLE_CHAPTER_LIMIT {
            let g = fallback_groups(paras);
            assert(g.0.len() > 0 || g.2 > 0);
        }
    }
    if is_blank(content) {
        lemma_blank_lines(content);
        assert forall|j: int| 0 <= j < ls.len() implies heading_of(p, #[trigger] ls[j]) is None by {
            lemma_trim_empty_iff_blank(ls[j]);
        }
        lemma_detected_skip(p, ls, 0, ls.len() as int);
        assert(d.len() == 0);
    }
}


// ---------------------------------------------------------------------------
// Entities found in a text
// ---------------------------------------------------------------------------

proof fn lemma_found_ids_grow(text: Seq<char>, ents: Seq<EntityInfo>, n: int)
    requires
        0 <= n <= ents.len(),
    ensures
        forall|x: Seq<char>| found_ids(text, ents.take(n)).contains(x) ==> #[trigger] found_ids(text, ents).contains(x),
    decreases ents.len() - n,
{
    if n < ents.len() {
        lemma_found_ids_grow(text, ents, n + 1);
        let t = ents.take(n + 1);
        assert(t.drop_last() =~= ents.take(n));
        let prev = found_ids(text, ents.take(n));
        assert forall|x: Seq<char>| prev.contains(x) implies #[trigger] found_ids(text, ents).contains(x) by {
            let k = choose|k: int| 0 <= k < prev.len() && prev[k] == x;
            assert(found_ids(text, t)[k] == x);
            assert(found_ids(text, t).contains(x));
        }
    } else {
        assert(ents.take(n) =~= ents);
    }
}

/// A text mentions an entity when its lowercased text holds the entity's lowercased
/// name or one of its lowercased aliases: every such entity's id is found, and every
/// id found is that of an entity so mentioned.
pub proof fn law_entities_found_by_name_or_alias(text: Seq<char>, ents: Seq<EntityInfo>)
    ensures
        forall|k: int, j: int|
            0 <= k < ents.len() && 0 <= j < ents[k].aliases@.len() && contains(
                lowercase(text),
                lowercase(#[trigger] ents[k].aliases@[j]@),
            ) ==> found_ids(text, ents).contains(ents[k].id@),
        forall|k: int|
            0 <= k < ents.len() && contains(lowercase(text), lowercase(#[trigger] ents[k].name@)) ==> found_ids(
                text,
                ents,
            ).contains(ents[k].id@),
        forall|x: Seq<char>|
            #[trigger] found_ids(text, ents).contains(x) ==> exists|k: int|
                0 <= k < ents.len() && ents[k].id@ == x && (contains(lowercase(text), lowercase(ents[k].name@))
                    || exists|j: int|
                    0 <= j < ents[k].aliases@.len() && contains(lowercase(text), lowercase(ents[k].aliases@[j]@))),
    decreases ents.len(),
{
    if ents.len() > 0 {
        let prev_ents = ents.drop_last();
        law_entities_found_by_name_or_alias(text, prev_ents);
        lemma_found_ids_grow(text, ents, ents.len() - 1);
        assert(ents.take(ents.len() - 1) =~= prev_ents);
        let prev = found_ids(text, prev_ents);
        let r = found_ids(text, ents);
        let e = ents.last();
        assert forall|k: int, j: int|
            0 <= k < ents.len() && 0 <= j < ents[k].aliases@.len() && contains(
                lowercase(text),
                lowercase(#[trigger] ents[k].aliases@[j]@),
            ) implies r.contains(ents[k].id@) by {
            if k < ents.len() - 1 {
                assert(ents[k] == prev_ents[k]);
                assert(prev.contains(prev_ents[k].id@));
            } else {
                assert(ents[k] == e);
                if !prev.contains(e.id@) {
                    assert(r == prev.push(e.id@));
                    assert(r[r.len() - 1] == e.id@);
                }
            }
        }
        assert forall|k: int|
            0 <= k < ents.len() && contains(lowercase(text), lowercase(#[trigger] ents[k].name@)) implies r.contains(
            ents[k].id@,
        ) by {
            if k < ents.len() - 1 {
                assert(ents[k] == prev_ents[k]);
                assert(prev.contains(prev_ents[k].id@));
            } else {
                assert(ents[k] == e);
                if !prev.contains(e.id@) {
                    assert(r == prev.push(e.id@));
                    assert(r[r.len() - 1] == e.id@);
                }
            }
        }
        assert forall|x: Seq<char>| #[trigger] r.contains(x) implies exists|k: int|
            0 <= k < ents.len() && ents[k].id@ == x && (contains(lowercase(text), lowercase(ents[k].name@)) || exists|j: int|
                0 <= j < ents[k].aliases@.len() && contains(lowercase(text), lowercase(ents[k].aliases@[j]@))) by {
            if prev.contains(x) {
                let k = choose|k: int|
                    0 <= k < prev_ents.len() && prev_ents[k].id@ == x && (contains(lowercase(text), lowercase(prev_ents[k].name@))
                        || exists|j: int|
                        0 <= j < prev_ents[k].aliases@.len() && contains(lowercase(text), lowercase(prev_ents[k].aliases@[j]@)));
                assert(ents[k] == prev_ents[k]);
            } else {
                assert(r != prev);
                assert(r == prev.push(e.id@));
                let i = choose|i: int| 0 <= i < r.len() && r[i] == x;
                assert(i == r.len() - 1);
                assert(ents[ents.len() - 1] == e);
            }
        }
    }
}

// ---------------------------------------------------------------------------
// Merged descriptions
// ---------------------------------------------------------------------------

/// Facts about a merged description `r` drawn from `cur` and the descriptions `ds`:
/// it is one of them, and none of them is longer in UTF-8 bytes.
pub open spec fn longest_of(r: Option<Seq<char>>, cur: Option<Seq<char>>, ds: Seq<Option<Seq<char>>>) -> bool {
    &&& (cur is Some ==> (r is Some && byte_len(cur.unwrap()) <= byte_len(r.unwrap())))
    &&& forall|j: int|
        0 <= j < ds.len() && #[trigger] ds[j] is Some ==> (r is Some && byte_len(ds[j].unwrap()) <= byte_len(r.unwrap()))
    &&& (r is Some ==> (cur == r || exists|j: int| 0 <= j < ds.len() && #[trigger] ds[j] == r))
}

pub open spec fn character_descriptions(cs: Seq<CharacterRecord>) -> Seq<Option<Seq<char>>> {
    cs.map_values(|c: CharacterRecord| crate::segmentation::opt_view(c.description))
}

pub open spec fn setting_descriptions(ss: Seq<SettingRecord>) -> Seq<Option<Seq<char>>> {
    ss.map_values(|s: SettingRecord| crate::segmentation::opt_view(s.description))
}

proof fn lemma_longest_step(r: Option<Seq<char>>, cur: Option<Seq<char>>, ds: Seq<Option<Seq<char>>>, d: Option<Seq<char>>)
    requires
        longest_of(r, cur, ds),
    ensures
        longest_of(crate::duplicates::longer_description(r, d), cur, ds.push(d)),
{
    let r2 = crate::duplicates::longer_description(r, d);
    let ds2 = ds.push(d);
    assert forall|j: int| 0 <= j < ds2.len() && #[trigger] ds2[j] is Some implies (r2 is Some && byte_len(
        ds2[j].unwrap(),
    ) <= byte_len(r2.unwrap())) by {
        if j < ds.len() {
            assert(ds2[j] == ds[j]);
        }
    }
    if r2 is Some {
        let x = r2.unwrap();
        if r2 == d {
            assert(ds2[ds.len() as int] == Some(x));
        } else {
            assert(r2 == r);
            if cur != Some(x) {
                let j = choose|j: int| 0 <= j < ds.len() && #[trigger] ds[j] == Some(x);
                assert(ds2[j] == Some(x));
            }
        }
    }
}

proof fn lemma_take_in_characters_longest(m: crate::duplicates::CharacterMerged, dups: Seq<CharacterRecord>)
    ensures
        longest_of(take_in_characters(m, dups).3, m.3, character_descriptions(dups)),
    decreases dups.len(),
{
    if dups.len() == 0 {
        assert(character_descriptions(dups).len() == 0);
    } else {
        lemma_take_in_characters_longest(m, dups.drop_last());
        assert(character_descriptions(dups) =~= character_descriptions(dups.drop_last()).push(
            crate::segmentation::opt_view(dups.last().description),
        ));
        lemma_longest_step(
            take_in_characters(m, dups.drop_last()).3,
            m.3,
            character_descriptions(dups.drop_last()),
            crate::segmentation::opt_view(dups.last().description),
        );
    }
}

proof fn lemma_take_in_settings_longest(m: crate::duplicates::SettingMerged, dups: Seq<SettingRecord>)
    ensures
        longest_of(take_in_settings(m, dups).2, m.2, setting_descriptions(dups)),
    decreases dups.len(),
{
    if dups.len() == 0 {
        assert(setting_descriptions(dups).len() == 0);
    } else {
        lemma_take_in_settings_longest(m, dups.drop_last());
        assert(setting_descriptions(dups) =~= setting_descriptions(dups.drop_last()).push(
            crate::segmentation::opt_view(dups.last().description),
        ));
        lemma_longest_step(
            take_in_settings(m, dups.drop_last()).2,
            m.2,
            setting_descriptions(dups.drop_last()),
            crate::segmentation::opt_view(dups.last().description),
        );
    }
}

/// Merging a group of duplicate characters keeps the longest description (in UTF-8
/// bytes) of the group: every member's description is at most as long, and the kept
/// one is a member's; there is one exactly when some member has one.
pub proof fn law_character_merge_keeps_longest_description(cs: Seq<CharacterRecord>, g: Seq<int>)
    requires
        g.len() >= 1,
        forall|k: int| 0 <= k < g.len() ==> 0 <= #[trigger] g[k] < cs.len(),
    ensures
        ({
            let d = character_group_plan(cs, g).1.3;
            &&& forall|k: int|
                0 <= k < g.len() && #[trigger] cs[g[k]].description is Some ==> (d is Some && byte_len(
                    cs[g[k]].description.unwrap()@,
                ) <= byte_len(d.unwrap()))
            &&& d is Some ==> exists|k: int|
                0 <= k < g.len() && (#[trigger] cs[g[k]].description is Some) && cs[g[k]].description.unwrap()@ == d.unwrap()
        }),
{
    let ms = g.map_values(|i: int| cs[i]);
    let rest = ms.drop_first();
    let m = crate::duplicates::character_state(ms[0]);
    lemma_take_in_characters_longest(m, rest);
    let d = character_group_plan(cs, g).1.3;
    let ds = character_descriptions(rest);
    assert forall|k: int| 0 <= k < g.len() && #[trigger] cs[g[k]].description is Some implies (d is Some
        && byte_len(cs[g[k]].description.unwrap()@) <= byte_len(d.unwrap())) by {
        if k > 0 {
            assert(ds[k - 1] == crate::segmentation::opt_view(rest[k - 1].description));
            assert(rest[k - 1] == cs[g[k]]);
        } else {
            assert(ms[0] == cs[g[0]]);
        }
    }
    if d is Some {
        let x = d.unwrap();
        if m.3 == Some(x) {
            assert(ms[0] == cs[g[0]]);
        } else {
            let j = choose|j: int| 0 <= j < ds.len() && #[trigger] ds[j] == Some(x);
            assert(rest[j] == cs[g[j + 1]]);
        }
    }
}

/// Merging a group of duplicate settings keeps the longest description (in UTF-8
/// bytes) of the group: every member's description is at most as long, and the kept
/// one is a member's; there is one exactly when some member has one.
pub proof fn law_setting_merge_keeps_longest_description(ss: Seq<SettingRecord>, g: Seq<int>)
    requires
        g.len() >= 1,
        forall|k: int| 0 <= k < g.len() ==> 0 <= #[trigger] g[k] < ss.len(),
    ensures
        ({
            let d = setting_group_plan(ss, g).1.2;
            &&& forall|k: int|
                0 <= k < g.len() && #[trigger] ss[g[k]].description is Some ==> (d is Some && byte_len(
                    ss[g[k]].description.unwrap()@,
                ) <= byte_len(d.unwrap()))
            &&& d is Some ==> exists|k: int|
                0 <= k < g.len() && (#[trigger] ss[g[k]].description is Some) && ss[g[k]].description.unwrap()@ == d.unwrap()
        }),
{
    let ms = g.map_values(|i: int| ss[i]);
    let rest = ms.drop_first();
    let m = crate::duplicates::setting_state(ms[0]);
    lemma_take_in_settings_longest(m, rest);
    let d = setting_group_plan(ss, g).1.2;
    let ds = setting_descriptions(rest);
    assert forall|k: int| 0 <= k < g.len() && #[trigger] ss[g[k]].description is Some implies (d is Some
        && byte_len(ss[g[k]].description.unwrap()@) <= byte_len(d.unwrap())) by {
        if k > 0 {
            assert(ds[k - 1] == crate::segmentation::opt_view(rest[k - 1].description));
            assert(rest[k - 1] == ss[g[k]]);
        } else {
            assert(ms[0] == ss[g[0]]);
        }
    }
    if d is Some {
        let x = d.unwrap();
        if m.2 == Some(x) {
            assert(ms[0] == ss[g[0]]);
        } else {
            let j = choose|j: int| 0 <= j < ds.len() && #[trigger] ds[j] == Some(x);
            assert(rest[j] == ss[g[j + 1]]);
        }
    }
}


// ---------------------------------------------------------------------------
// Chinese numerals
// ---------------------------------------------------------------------------

/// The Chinese numeral character for a digit 1 to 9.
pub open spec fn digit_numeral(v: int) -> char {
    if v == 1 {
        '一'
    } else if v == 2 {
        '二'
    } else if v == 3 {
        '三'
    } else if v == 4 {
        '四'
    } else if v == 5 {
        '五'
    } else if v == 6 {
        '六'
    } else if v == 7 {
        '七'
    } else if v == 8 {
        '八'
    } else {
        '九'
    }
}

/// The multiplier character for ten, a hundred or a thousand.
pub open spec fn place_numeral(p: int) -> char {
    if p == 10 {
        '十'
    } else if p == 100 {
        '百'
    } else {
        '千'
    }
}

proof fn lemma_numeral_values(v: int, place: int)
    requires
        1 <= v <= 9,
        place == 10 || place == 100 || place == 1000,
    ensures
        chinese_value(digit_numeral(v)) == Some(v as nat),
        chinese_value(place_numeral(place)) == Some(place as nat),
{
    if v == 1 {
    } else if v == 2 {
    } else if v == 3 {
    } else if v == 4 {
    } else if v == 5 {
    } else if v == 6 {
    } else if v == 7 {
    } else if v == 8 {
    } else {
    }
    if place == 10 {
    } else if place == 100 {
    } else {
    }
}

/// Reading more numerals after a completed part adds what they read on their own,
/// where they hold no 万.
proof fn lemma_fold_after_part(p: Seq<char>, s: Seq<char>)
    requires
        chinese_fold(p).1 == 0,
        !s.contains('万'),
    ensures
        chinese_fold(p + s) == (chinese_fold(p).0 + chinese_fold(s).0, chinese_fold(s).1),
    decreases s.len(),
{
    if s.len() == 0 {
        assert(p + s =~= p);
    } else {
        assert(!s.drop_last().contains('万')) by {
            if s.drop_last().contains('万') {
                let i = choose|i: int| 0 <= i < s.drop_last().len() && s.drop_last()[i] == '万';
                assert(s[i] == '万');
            }
        }
        lemma_fold_after_part(p, s.drop_last());
        assert((p + s).drop_last() =~= p + s.drop_last());
        assert((p + s).last() == s.last());
        assert(s.last() != '万') by {
            assert(s[s.len() - 1] == s.last());
        }
    }
}

/// A digit followed by 十, 百 or 千 reads as the digit times ten, a hundred or a
/// thousand, and what follows (holding no 万) adds its own reading: 一千二百三十四
/// reads 1234.
pub proof fn law_chinese_place_values(v: int, place: int, s: Seq<char>)
    requires
        1 <= v <= 9,
        place == 10 || place == 100 || place == 1000,
        !s.contains('万'),
    ensures
        chinese_fold(seq![digit_numeral(v), place_numeral(place)] + s) == (v * place + chinese_fold(s).0, chinese_fold(s).1),
        chinese_fold(seq![place_numeral(place)] + s) == (place + chinese_fold(s).0, chinese_fold(s).1),
{
    lemma_numeral_values(v, place);
    let head = seq![digit_numeral(v), place_numeral(place)];
    assert(head.drop_last() =~= seq![digit_numeral(v)]);
    assert(seq![digit_numeral(v)].drop_last() =~= Seq::<char>::empty());
    let d1 = seq![digit_numeral(v)];
    assert(d1.last() == digit_numeral(v));
    assert(chinese_fold(d1.drop_last()) == (0int, 0int));
    assert(chinese_fold(d1) == (0int, v));
    assert(head.last() == place_numeral(place));
    assert(chinese_fold(head) == (v * place, 0int));
    lemma_fold_after_part(head, s);
    let one = seq![place_numeral(place)];
    assert(one.drop_last() =~= Seq::<char>::empty());
    assert(one.last() == place_numeral(place));
    assert(chinese_fold(one.drop_last()) == (0int, 0int));
    assert(chinese_fold(one) == (place, 0int));
    lemma_fold_after_part(one, s);
}

// ---------------------------------------------------------------------------
// Encodings
// ---------------------------------------------------------------------------

/// A byte order mark names the encoding: a sample that begins with FF FE is
/// UTF-16LE and one that begins with FE FF is UTF-16BE; and only such samples are.
pub proof fn law_bom_names_utf16(sample: Seq<u8>)
    ensures
        sample.len() >= 2 && sample[0] == 0xFF && sample[1] == 0xFE ==> detected_encoding(sample) == "utf-16le"@,
        sample.len() >= 2 && sample[0] == 0xFE && sample[1] == 0xFF ==> detected_encoding(sample) == "utf-16be"@,
        detected_encoding(sample) == "utf-16le"@ ==> sample.len() >= 2 && sample[0] == 0xFF && sample[1] == 0xFE,
        detected_encoding(sample) == "utf-16be"@ ==> sample.len() >= 2 && sample[0] == 0xFE && sample[1] == 0xFF,
{
    reveal_strlit("utf-8");
    reveal_strlit("utf-16le");
    reveal_strlit("utf-16be");
    reveal_strlit("gbk");
    reveal_strlit("gb18030");
    assert("utf-8"@.len() == 5 && "utf-16le"@.len() == 8 && "utf-16be"@.len() == 8 && "gbk"@.len() == 3);
    assert("gb18030"@.len() == 7);
    assert("utf-16le"@[6] == 'l' && "utf-16be"@[6] == 'b');
}

// ---------------------------------------------------------------------------
// Cover image
// ---------------------------------------------------------------------------

/// The image taken as the cover when no other way finds one is larger than
/// `MIN_COVER_BYTES`, no image of the list is larger, and it is the first of that
/// size; where none is larger than `MIN_COVER_BYTES`, none is taken.
pub proof fn law_largest_image_is_largest(images: Seq<(String, usize)>)
    ensures
        match largest_image_of(images) {
            Some(b) => b.1 > MIN_COVER_BYTES && exists|k: int|
                0 <= k < images.len() && images[k].0@ == b.0 && images[k].1 == b.1 && (forall|j: int|
                    0 <= j < k ==> images[j].1 < b.1),
            None => true,
        },
        largest_image_of(images) matches Some(b) ==> forall|j: int| 0 <= j < images.len() ==> #[trigger] images[j].1 <= b.1,
        largest_image_of(images) is None ==> forall|j: int| 0 <= j < images.len() ==> #[trigger] images[j].1 <= MIN_COVER_BYTES,
    decreases images.len(),
{
    if images.len() > 0 {
        let prev = images.drop_last();
        law_largest_image_is_largest(prev);
        let r = largest_image_of(images);
        let pb = largest_image_of(prev);
        assert forall|j: int| 0 <= j < images.len() - 1 implies images[j] == prev[j] by {}
        if r is Some && r != pb {
            let k = images.len() - 1;
            assert(images[k].0@ == r.unwrap().0);
            if pb is Some {
                assert forall|j: int| 0 <= j < k implies images[j].1 < r.unwrap().1 by {
                    assert(images[j] == prev[j]);
                }
            } else {
                assert forall|j: int| 0 <= j < k implies images[j].1 < r.unwrap().1 by {
                    assert(images[j] == prev[j]);
                }
            }
        } else if r is Some {
            let b = r.unwrap();
            let k = choose|k: int|
                0 <= k < prev.len() && prev[k].0@ == b.0 && prev[k].1 == b.1 && (forall|j: int| 0 <= j < k ==> prev[j].1 < b.1);
            assert(images[k] == prev[k]);
            assert forall|j: int| 0 <= j < k implies images[j].1 < b.1 by {
                assert(images[j] == prev[j]);
            }
        }
    }
}

} // verus!
