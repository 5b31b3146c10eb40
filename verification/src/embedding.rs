//! Text chunks for embeddings, entity recognition in chunks, and entity descriptions.
use vstd::prelude::*;
use crate::text::{
    append_chars, chars_of, contains, contains_chars, lemma_split_bounds, lemma_split_total,
    lemma_trimmed_nonempty_bounds, lemma_trimmed_total, lowercase, split, split_chars, str_eq,
    string_of, to_lowercase, total_len, trimmed_nonempty, trimmed_nonempty_pieces, views,
};

verus! {

/// Entity type for embedding updates.
pub enum EntityType {
    Character,
    Setting,
    Event,
}

pub open spec fn entity_type_name(t: EntityType) -> Seq<char> {
    match t {
        EntityType::Character => "character"@,
        EntityType::Setting => "setting"@,
        EntityType::Event => "event"@,
    }
}

impl EntityType {
    /// The name of the entity type.
    pub fn as_str(&self) -> (res: &'static str)
        ensures
            res@ == entity_type_name(*self),
    {
        match self {
            EntityType::Character => "character",
            EntityType::Setting => "setting",
            EntityType::Event => "event",
        }
    }
}

/// A piece of chapter text to be embedded, with its character range.
pub struct ChunkInfo {
    pub content: String,
    pub char_start: u32,
    pub char_end: u32,
    pub index: u32,
}

/// The outcome of embedding one chunk.
pub struct EmbeddingResult {
    pub chunk_id: String,
    pub success: bool,
    pub error: Option<String>,
}

/// The outcome of embedding the chunks of a chapter.
pub struct GenerateEmbeddingsResult {
    pub total_chunks: usize,
    pub successful: usize,
    pub failed: usize,
    pub results: Vec<EmbeddingResult>,
}

/// The embedding provider, model and dimensions that the settings select.
pub struct CurrentEmbeddingSignatureInfo {
    pub provider: String,
    pub model: String,
    pub dimensions: Option<u32>,
}

/// A request for chunks similar to a text.
pub struct SearchSimilarRequest {
    pub book_id: String,
    pub query: String,
    pub top_k: Option<usize>,
    pub chunk_type: Option<String>,
    pub exclude_chapter_id: Option<String>,
}

/// Counts of chunks and embeddings of a book.
pub struct EmbeddingStats {
    pub chunk_count: usize,
    pub embedding_count: usize,
    pub has_vectors_db: bool,
}

/// The outcome of rebuilding the entity embeddings of a book.
pub struct RebuildEntityEmbeddingsResult {
    pub characters_updated: usize,
    pub settings_updated: usize,
    pub events_updated: usize,
    pub total_updated: usize,
    pub errors: Vec<String>,
}

/// The embedding dimensions of well-known models, when the settings give none.
pub open spec fn default_dimensions(provider: Seq<char>, model: Seq<char>) -> Option<u32> {
    if provider == "openai"@ {
        if model == "text-embedding-3-small"@ {
            Some(1536)
        } else if model == "text-embedding-3-large"@ {
            Some(3072)
        } else if model == "text-embedding-ada-002"@ {
            Some(1536)
        } else {
            None
        }
    } else if provider == "gemini"@ {
        if model == "text-embedding-004"@ || model == "text-embedding-preview-0815"@ || model
            == "embedding-001"@ {
            Some(768)
        } else {
            None
        }
    } else {
        None
    }
}

/// The default embedding dimensions of a known model, if any.
pub fn infer_default_embedding_dimensions(provider: &str, model: &str) -> (res: Option<u32>)
    ensures
        res == default_dimensions(provider@, model@),
{
    if str_eq(provider, "openai") {
        if str_eq(model, "text-embedding-3-small") {
            Some(1536)
        } else if str_eq(model, "text-embedding-3-large") {
            Some(3072)
        } else if str_eq(model, "text-embedding-ada-002") {
            Some(1536)
        } else {
            None
        }
    } else if str_eq(provider, "gemini") {
        if str_eq(model, "text-embedding-004") || str_eq(model, "text-embedding-preview-0815")
            || str_eq(model, "embedding-001") {
            Some(768)
        } else {
            None
        }
    } else {
        None
    }
}

/// Which embedding provider the settings select.
pub enum EmbeddingProviderType {
    OpenAI,
    Gemini,
    Disabled,
}

pub open spec fn opt_text(o: Option<String>) -> Option<Seq<char>> {
    match o {
        Some(s) => Some(s@),
        None => None,
    }
}

/// The current embedding signature from the provider settings: `disabled` with no
/// model when embedding is off; otherwise the provider, its model (the provider's
/// default model when the setting is blank) and the configured dimensions, or the
/// model's known default dimensions.
pub fn current_embedding_signature(
    active: &EmbeddingProviderType,
    configured_model: &str,
    configured_dimensions: Option<u32>,
) -> (res: CurrentEmbeddingSignatureInfo)
    ensures
        *active is Disabled ==> res.provider@ == "disabled"@ && res.model@ == Seq::<char>::empty()
            && res.dimensions is None,
        *active is OpenAI ==> res.provider@ == "openai"@,
        *active is Gemini ==> res.provider@ == "gemini"@,
        !(*active is Disabled) ==> res.model@ == (if crate::text::is_blank(configured_model@) {
            if *active is OpenAI {
                "text-embedding-3-small"@
            } else {
                "text-embedding-004"@
            }
        } else {
            configured_model@
        }),
        !(*active is Disabled) ==> res.dimensions == match configured_dimensions {
            Some(d) => Some(d),
            None => default_dimensions(res.provider@, res.model@),
        },
{
    let (provider, default_model) = match active {
        EmbeddingProviderType::Disabled => {
            return CurrentEmbeddingSignatureInfo {
                provider: String::from_str("disabled"),
                model: String::new(),
                dimensions: None,
            };
        },
        EmbeddingProviderType::OpenAI => ("openai", "text-embedding-3-small"),
        EmbeddingProviderType::Gemini => ("gemini", "text-embedding-004"),
    };
    let mc = chars_of(configured_model);
    let model = if crate::text::blank(mc.as_slice()) {
        String::from_str(default_model)
    } else {
        String::from_str(configured_model)
    };
    let dimensions = match configured_dimensions {
        Some(d) => Some(d),
        None => infer_default_embedding_dimensions(provider, model.as_str()),
    };
    CurrentEmbeddingSignatureInfo { provider: String::from_str(provider), model, dimensions }
}

/// The label of an entity type in entity descriptions.
pub open spec fn entity_type_label(t: EntityType) -> Seq<char> {
    match t {
        EntityType::Character => "人物"@,
        EntityType::Setting => "设定"@,
        EntityType::Event => "事件"@,
    }
}

pub open spec fn opt_str(o: Option<&str>) -> Option<Seq<char>> {
    match o {
        Some(s) => Some(s@),
        None => None,
    }
}

/// The text embedded for an entity: `[类型] 名字`, then `: 描述` and ` | 附加信息`
/// when those are given and not empty.
pub open spec fn entity_description(
    t: EntityType,
    name: Seq<char>,
    description: Option<Seq<char>>,
    additional: Option<Seq<char>>,
) -> Seq<char> {
    let head = seq!['['] + entity_type_label(t) + seq![']', ' '] + name;
    let with_desc = match description {
        Some(d) => if d.len() > 0 {
            head + seq![':', ' '] + d
        } else {
            head
        },
        None => head,
    };
    match additional {
        Some(a) => if a.len() > 0 {
            with_desc + seq![' ', '|', ' '] + a
        } else {
            with_desc
        },
        None => with_desc,
    }
}

/// Builds the text description of an entity for embedding.
pub fn build_entity_description(
    entity_type: &EntityType,
    name: &str,
    description: Option<&str>,
    additional_info: Option<&str>,
) -> (res: String)
    ensures
        res@ == entity_description(*entity_type, name@, opt_str(description), opt_str(additional_info)),
{
    let label = match entity_type {
        EntityType::Character => "人物",
        EntityType::Setting => "设定",
        EntityType::Event => "事件",
    };
    let mut text: Vec<char> = Vec::new();
    text.push('[');
    append_chars(&mut text, chars_of(label).as_slice());
    text.push(']');
    text.push(' ');
    append_chars(&mut text, chars_of(name).as_slice());
    match description {
        Some(d) => {
            let dc = chars_of(d);
            if dc.len() > 0 {
                text.push(':');
                text.push(' ');
                append_chars(&mut text, dc.as_slice());
            }
        },
        None => {},
    }
    match additional_info {
        Some(a) => {
            let ac = chars_of(a);
            if ac.len() > 0 {
                text.push(' ');
                text.push('|');
                text.push(' ');
                append_chars(&mut text, ac.as_slice());
            }
        },
        None => {},
    }
    string_of(text.as_slice())
}

// ---------------------------------------------------------------------------
// Entities in text
// ---------------------------------------------------------------------------

/// A known entity for chunk tagging: id, name and aliases.
pub struct EntityInfo {
    pub id: String,
    pub name: String,
    pub aliases: Vec<String>,
}

/// The lowercased text contains the lowercased name or some lowercased alias.
pub open spec fn entity_in_text(text_lower: Seq<char>, e: EntityInfo) -> bool {
    ||| contains(text_lower, lowercase(e.name@))
    ||| exists|j: int|
        0 <= j < e.aliases@.len() && contains(text_lower, lowercase(#[trigger] e.aliases@[j]@))
}

/// The ids of the entities that the text mentions, each once, in entity order.
pub open spec fn found_ids(text: Seq<char>, ents: Seq<EntityInfo>) -> Seq<Seq<char>>
    decreases ents.len(),
{
    if ents.len() == 0 {
        Seq::<Seq<char>>::empty()
    } else {
        let prev = found_ids(text, ents.drop_last());
        let e = ents.last();
        if entity_in_text(lowercase(text), e) && !prev.contains(e.id@) {
            prev.push(e.id@)
        } else {
            prev
        }
    }
}

fn vec_contains_str(v: &Vec<String>, s: &String) -> (res: bool)
    ensures
        res == v@.map_values(|x: String| x@).contains(s@),
{
    let ghost w = v@.map_values(|x: String| x@);
    let mut i: usize = 0;
    while i < v.len()
        invariant
            i <= v@.len(),
            w == v@.map_values(|x: String| x@),
            forall|k: int| 0 <= k < i ==> w[k] != s@,
        decreases v.len() - i,
    {
        if str_eq(v[i].as_str(), s.as_str()) {
            assert(w[i as int] == s@);
            return true;
        }
        i = i + 1;
    }
    false
}

/// Finds the ids of all entities mentioned in a text.
pub fn find_entities_in_text(text: &str, entities: &[EntityInfo]) -> (res: Vec<String>)
    ensures
        res@.map_values(|x: String| x@) == found_ids(text@, entities@),
{
    let text_lower = to_lowercase(text);
    let tl = chars_of(text_lower.as_str());
    let mut found: Vec<String> = Vec::new();
    let mut i: usize = 0;
    while i < entities.len()
        invariant
            i <= entities@.len(),
            tl@ == lowercase(text@),
            found@.map_values(|x: String| x@) == found_ids(text@, entities@.take(i as int)),
        decreases entities.len() - i,
    {
        proof {
            assert(entities@.take(i + 1).drop_last() == entities@.take(i as int));
            assert(entities@.take(i + 1).last() == entities@[i as int]);
        }
        let e = &entities[i];
        let name_lower = to_lowercase(e.name.as_str());
        let mut mentioned = contains_chars(tl.as_slice(), chars_of(name_lower.as_str()).as_slice());
        if !mentioned {
            let mut j: usize = 0;
            while j < e.aliases.len()
                invariant
                    j <= e.aliases@.len(),
                    tl@ == lowercase(text@),
                    mentioned == exists|m: int|
                        0 <= m < j && contains(tl@, lowercase(#[trigger] e.aliases@[m]@)),
                decreases e.aliases.len() - j,
            {
                let al = to_lowercase(e.aliases[j].as_str());
                if contains_chars(tl.as_slice(), chars_of(al.as_str()).as_slice()) {
                    mentioned = true;
                }
                j = j + 1;
            }
        }
        assert(mentioned == entity_in_text(lowercase(text@), *e));
        if mentioned && !vec_contains_str(&found, &e.id) {
            let id = String::from_str(e.id.as_str());
            proof {
                assert(found@.push(id).map_values(|x: String| x@) =~= found@.map_values(
                    |x: String| x@,
                ).push(e.id@));
            }
            found.push(id);
        }
        i = i + 1;
    }
    proof {
        assert(entities@.take(entities@.len() as int) == entities@);
    }
    found
}

/// `cur` extended by the ids of `ids` that it does not hold yet, in order.
pub open spec fn add_unique(cur: Seq<Seq<char>>, ids: Seq<Seq<char>>) -> Seq<Seq<char>>
    decreases ids.len(),
{
    if ids.len() == 0 {
        cur
    } else {
        let prev = add_unique(cur, ids.drop_last());
        if prev.contains(ids.last()) {
            prev
        } else {
            prev.push(ids.last())
        }
    }
}

fn add_unique_ids(cur: &mut Vec<String>, ids: &Vec<String>)
    ensures
        final(cur)@.map_values(|x: String| x@) == add_unique(
            old(cur)@.map_values(|x: String| x@),
            ids@.map_values(|x: String| x@),
        ),
{
    let ghost start = cur@.map_values(|x: String| x@);
    let ghost w = ids@.map_values(|x: String| x@);
    let mut i: usize = 0;
    while i < ids.len()
        invariant
            i <= ids@.len(),
            w == ids@.map_values(|x: String| x@),
            cur@.map_values(|x: String| x@) == add_unique(start, w.take(i as int)),
        decreases ids.len() - i,
    {
        proof {
            assert(w.take(i + 1).drop_last() == w.take(i as int));
            assert(w.take(i + 1).last() == ids@[i as int]@);
        }
        if !vec_contains_str(cur, &ids[i]) {
            let id = String::from_str(ids[i].as_str());
            proof {
                assert(cur@.push(id).map_values(|x: String| x@) =~= cur@.map_values(|x: String| x@).push(
                    ids@[i as int]@,
                ));
            }
            cur.push(id);
        }
        i = i + 1;
    }
    proof {
        assert(w.take(ids@.len() as int) == w);
    }
}

// ---------------------------------------------------------------------------
// Chunk planning
// ---------------------------------------------------------------------------

/// Chunks are closed once they reach this many characters.
pub const CHUNK_SIZE_TARGET: usize = 1500;

/// A final chunk shorter than this is merged into the previous chunk.
pub const CHUNK_SIZE_MIN: usize = 200;

/// A planned chunk: content, index, start and end offsets, mentioned entity ids.
pub type PlannedChunk = (Seq<char>, nat, nat, nat, Seq<Seq<char>>);

/// The planning state after some paragraphs: closed chunks, the open chunk's text and
/// entities, its start offset, the running offset, and the next chunk index.
pub type PlanState = (Seq<PlannedChunk>, Seq<char>, Seq<Seq<char>>, nat, nat, nat);

/// The paragraphs of a chapter for chunking: trimmed nonempty pieces between blank lines.
pub open spec fn chunk_paragraphs(text: Seq<char>) -> Seq<Seq<char>> {
    trimmed_nonempty(split(text, seq!['\n', '\n']))
}

/// Adding paragraphs to chunks: a paragraph joins the open chunk (after a blank line),
/// the offset advances by the paragraph's length plus two, and the chunk is closed
/// once it reaches `CHUNK_SIZE_TARGET` characters.
pub open spec fn plan_fold(paras: Seq<Seq<char>>, ents: Seq<EntityInfo>) -> PlanState
    decreases paras.len(),
{
    if paras.len() == 0 {
        (
            Seq::<PlannedChunk>::empty(),
            Seq::<char>::empty(),
            Seq::<Seq<char>>::empty(),
            0,
            0,
            0,
        )
    } else {
        let st = plan_fold(paras.drop_last(), ents);
        let p = paras.last();
        let start = if st.1.len() == 0 {
            st.4
        } else {
            st.3
        };
        let cur = if st.1.len() == 0 {
            p
        } else {
            st.1 + seq!['\n', '\n'] + p
        };
        let ce = add_unique(st.2, found_ids(p, ents));
        let off = st.4 + p.len() + 2;
        if cur.len() >= CHUNK_SIZE_TARGET {
            (st.0.push((cur, st.5, start, off, ce)), Seq::<char>::empty(), Seq::<Seq<char>>::empty(), start, off, st.5 + 1)
        } else {
            (st.0, cur, ce, start, off, st.5)
        }
    }
}

/// The chunks of a chapter: after all paragraphs, an open chunk of at least
/// `CHUNK_SIZE_MIN` characters becomes a chunk of its own; a shorter one is appended
/// to the last chunk (after a blank line, extending its end and entities), or becomes
/// the only chunk.
pub open spec fn planned_chunks(text: Seq<char>, ents: Seq<EntityInfo>) -> Seq<PlannedChunk> {
    let st = plan_fold(chunk_paragraphs(text), ents);
    if st.1.len() >= CHUNK_SIZE_MIN {
        st.0.push((st.1, st.5, st.3, st.4, st.2))
    } else if st.1.len() > 0 && st.0.len() > 0 {
        let last = st.0.last();
        st.0.update(
            st.0.len() - 1,
            (last.0 + seq!['\n', '\n'] + st.1, last.1, last.2, st.4, add_unique(last.4, st.2)),
        )
    } else if st.1.len() > 0 {
        st.0.push((st.1, st.5, st.3, st.4, st.2))
    } else {
        st.0
    }
}

pub open spec fn strs(v: Seq<String>) -> Seq<Seq<char>> {
    v.map_values(|x: String| x@)
}

/// `c` is the planned chunk `p`.
pub open spec fn chunk_is(c: (ChunkInfo, Vec<String>), p: PlannedChunk) -> bool {
    &&& c.0.content@ == p.0
    &&& c.0.index == p.1
    &&& c.0.char_start == p.2
    &&& c.0.char_end == p.3
    &&& strs(c.1@) == p.4
}

proof fn lemma_plan_fold_bounds(paras: Seq<Seq<char>>, ents: Seq<EntityInfo>)
    ensures
        plan_fold(paras, ents).4 == total_len(paras, 2),
        plan_fold(paras, ents).3 <= plan_fold(paras, ents).4,
        plan_fold(paras, ents).5 <= paras.len(),
        plan_fold(paras, ents).0.len() == plan_fold(paras, ents).5,
    decreases paras.len(),
{
    if paras.len() > 0 {
        lemma_plan_fold_bounds(paras.drop_last(), ents);
    }
}

fn copy_ids(v: &Vec<String>) -> (res: Vec<String>)
    ensures
        strs(res@) == strs(v@),
{
    let mut res: Vec<String> = Vec::new();
    let mut i: usize = 0;
    while i < v.len()
        invariant
            i <= v@.len(),
            strs(res@) == strs(v@).take(i as int),
        decreases v.len() - i,
    {
        let s = String::from_str(v[i].as_str());
        proof {
            assert(strs(res@.push(s)) =~= strs(res@).push(s@));
            assert(strs(res@).push(s@) =~= strs(v@).take(i + 1));
        }
        res.push(s);
        i = i + 1;
    }
    assert(strs(v@).take(v@.len() as int) == strs(v@));
    res
}

/// Splits a chapter into chunks of about `CHUNK_SIZE_TARGET` characters along
/// paragraph boundaries, tagging each chunk with the ids of the entities it mentions.
pub fn plan_chunks(text: &str, entities: &[EntityInfo]) -> (res: Vec<(ChunkInfo, Vec<String>)>)
    requires
        text@.len() + 2 <= u32::MAX,
    ensures
        res@.len() == planned_chunks(text@, entities@).len(),
        forall|i: int| 0 <= i < res@.len() ==> chunk_is(#[trigger] res@[i], planned_chunks(text@, entities@)[i]),
{
    let chars = chars_of(text);
    let sep = vec!['\n', '\n'];
    assert(sep@ == seq!['\n', '\n']);
    let pieces = split_chars(chars.as_slice(), sep.as_slice());
    let paras = trimmed_nonempty_pieces(&pieces);
    let ghost ps = views(paras@);
    proof {
        lemma_split_total(text@, seq!['\n', '\n']);
        lemma_trimmed_total(split(text@, seq!['\n', '\n']), 2);
        lemma_plan_fold_bounds(ps, entities@);
        lemma_split_bounds(text@, seq!['\n', '\n']);
        lemma_trimmed_nonempty_bounds(split(text@, seq!['\n', '\n']), text@.len());
    }
    let mut chunks: Vec<(ChunkInfo, Vec<String>)> = Vec::new();
    let mut cur: Vec<char> = Vec::new();
    let mut cur_ents: Vec<String> = Vec::new();
    let mut chunk_start: u32 = 0;
    let mut char_offset: u32 = 0;
    let mut chunk_index: u32 = 0;
    let mut i: usize = 0;
    while i < paras.len()
        invariant
            i <= paras@.len(),
            ps == views(paras@),
            ps == chunk_paragraphs(text@),
            total_len(ps, 2) <= text@.len() + 2,
            ps.len() <= text@.len() + 1,
            text@.len() + 2 <= u32::MAX,
            ({
                let st = plan_fold(ps.take(i as int), entities@);
                &&& cur@ == st.1
                &&& strs(cur_ents@) == st.2
                &&& chunk_start == st.3
                &&& char_offset == st.4
                &&& chunk_index == st.5
                &&& chunks@.len() == st.0.len()
                &&& forall|k: int| 0 <= k < chunks@.len() ==> chunk_is(#[trigger] chunks@[k], st.0[k])
            }),
        decreases paras.len() - i,
    {
        let ghost st = plan_fold(ps.take(i as int), entities@);
        proof {
            assert(ps.take(i + 1).drop_last() == ps.take(i as int));
            assert(ps.take(i + 1).last() == ps[i as int]);
            lemma_plan_fold_bounds(ps.take(i + 1), entities@);
            lemma_total_len_prefix(ps, i + 1);
        }
        let para = &paras[i];
        let para_chars = para.len();
        if cur.len() == 0 {
            chunk_start = char_offset;
        } else {
            cur.push('\n');
            cur.push('\n');
        }
        append_chars(&mut cur, para.as_slice());
        let para_str = string_of(para.as_slice());
        let para_ents = find_entities_in_text(para_str.as_str(), entities);
        add_unique_ids(&mut cur_ents, &para_ents);
        char_offset = char_offset + para_chars as u32 + 2;
        proof {
            let p = ps[i as int];
            let start = if st.1.len() == 0 {
                st.4
            } else {
                st.3
            };
            let ncur = if st.1.len() == 0 {
                p
            } else {
                st.1 + seq!['\n', '\n'] + p
            };
            assert(cur@ == ncur);
            assert(chunk_start == start);
            assert(char_offset == st.4 + p.len() + 2);
            assert(strs(cur_ents@) == add_unique(st.2, found_ids(p, entities@)));
        }
        if cur.len() >= CHUNK_SIZE_TARGET {
            let info = ChunkInfo {
                content: string_of(cur.as_slice()),
                char_start: chunk_start,
                char_end: char_offset,
                index: chunk_index,
            };
            let entry = (info, cur_ents);
            proof {
                let nst = plan_fold(ps.take(i + 1), entities@);
                assert(chunk_is(entry, nst.0.last()));
            }
            chunks.push(entry);
            chunk_index = chunk_index + 1;
            cur = Vec::new();
            cur_ents = Vec::new();
        }
        i = i + 1;
        proof {
            let nst = plan_fold(ps.take(i as int), entities@);
            assert forall|k: int| 0 <= k < chunks@.len() implies chunk_is(#[trigger] chunks@[k], nst.0[k]) by {
                if k < st.0.len() {
                    assert(nst.0[k] == st.0[k]);
                }
            }
        }
    }
    proof {
        assert(ps.take(ps.len() as int) == ps);
    }
    let ghost st = plan_fold(ps, entities@);
    if cur.len() >= CHUNK_SIZE_MIN {
        let info = ChunkInfo {
            content: string_of(cur.as_slice()),
            char_start: chunk_start,
            char_end: char_offset,
            index: chunk_index,
        };
        chunks.push((info, cur_ents));
        proof {
            let pl = planned_chunks(text@, entities@);
            assert forall|k: int| 0 <= k < chunks@.len() implies chunk_is(#[trigger] chunks@[k], pl[k]) by {
                if k < st.0.len() {
                    assert(pl[k] == st.0[k]);
                }
            }
        }
    } else if cur.len() > 0 && chunks.len() > 0 {
        assert(chunk_is(chunks@[chunks@.len() - 1], st.0.last()));
        let last = chunks.pop().unwrap();
        let (last_info, last_ents) = last;
        let mut content = chars_of(last_info.content.as_str());
        content.push('\n');
        content.push('\n');
        append_chars(&mut content, cur.as_slice());
        let mut ents = copy_ids(&last_ents);
        add_unique_ids(&mut ents, &cur_ents);
        let info = ChunkInfo {
            content: string_of(content.as_slice()),
            char_start: last_info.char_start,
            char_end: char_offset,
            index: last_info.index,
        };
        proof {
            let lst = st.0.last();
            assert(last_info.content@ == lst.0);
            assert(strs(last_ents@) == lst.4);
            assert(cur@ == st.1);
            assert(strs(cur_ents@) == st.2);
            assert(info.content@ == lst.0 + seq!['\n', '\n'] + st.1);
            assert(strs(ents@) == add_unique(lst.4, st.2));
            assert(chunk_is((info, ents), (lst.0 + seq!['\n', '\n'] + st.1, lst.1, lst.2, st.4, add_unique(lst.4, st.2))));
        }
        chunks.push((info, ents));
        proof {
            let pl = planned_chunks(text@, entities@);
            assert forall|k: int| 0 <= k < chunks@.len() implies chunk_is(#[trigger] chunks@[k], pl[k]) by {
                if k < st.0.len() - 1 {
                    assert(pl[k] == st.0[k]);
                }
            }
        }
    } else if cur.len() > 0 {
        let info = ChunkInfo {
            content: string_of(cur.as_slice()),
            char_start: chunk_start,
            char_end: char_offset,
            index: chunk_index,
        };
        chunks.push((info, cur_ents));
        proof {
            let pl = planned_chunks(text@, entities@);
            assert forall|k: int| 0 <= k < chunks@.len() implies chunk_is(#[trigger] chunks@[k], pl[k]) by {
                if k < st.0.len() {
                    assert(pl[k] == st.0[k]);
                }
            }
        }
    }
    chunks
}

/// The total length of a prefix of the pieces is at most that of all pieces.
pub proof fn lemma_total_len_prefix(ps: Seq<Seq<char>>, k: int)
    requires
        0 <= k <= ps.len(),
    ensures
        total_len(ps.take(k), 2) <= total_len(ps, 2),
    decreases ps.len() - k,
{
    if k < ps.len() {
        assert(ps.drop_last().take(k) == ps.take(k));
        lemma_total_len_prefix(ps.drop_last(), k);
    } else {
        assert(ps.take(k) == ps);
    }
}

/// The chunks of a chapter, planned with no known entities.
pub fn chunk_text_simple(text: &str, chapter_id: &str) -> (res: Vec<crate::model::Chunk>)
    requires
        text@.len() + 2 <= u32::MAX,
    ensures
        crate::embedding_task::chunks_match(res@, chapter_id@, text@, Seq::<EntityInfo>::empty()),
{
    let none: Vec<EntityInfo> = Vec::new();
    crate::embedding_task::chunk_chapter(text, chapter_id, none.as_slice())
}

/// The chunks of a chapter, each tagged with the ids of the entities it mentions.
pub fn chunk_text_with_entities(text: &str, chapter_id: &str, entities: &[EntityInfo]) -> (res: Vec<
    crate::model::Chunk,
>)
    requires
        text@.len() + 2 <= u32::MAX,
    ensures
        crate::embedding_task::chunks_match(res@, chapter_id@, text@, entities@),
{
    crate::embedding_task::chunk_chapter(text, chapter_id, entities)
}

} // verus!
