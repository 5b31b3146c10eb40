//! Embedding of a book's chapters: the task's types, the check that an existing
//! vector store fits the active embedding settings, and chapter chunking.
use vstd::prelude::*;
use crate::embedding::{
    CurrentEmbeddingSignatureInfo, chunk_paragraphs, plan_chunks, planned_chunks, strs, EmbeddingProviderType, EntityInfo,
    PlannedChunk, CHUNK_SIZE_MIN, CHUNK_SIZE_TARGET,
};
use crate::model::{Chunk, ChunkType, ChapterId};
use crate::text::{
    append_chars, chars_of, decimal, decimal_chars, is_blank, lemma_split_bounds, lemma_split_total,
    lemma_trimmed_nonempty_bounds, lemma_trimmed_total, split, split_chars, string_of, total_len,
    trimmed_nonempty_pieces, views,
};

verus! {

/// Why an embedding task failed.
#[derive(Debug)]
pub enum EmbeddingTaskError {
    VectorDbError(String),
    BookDbError(String),
    EmbeddingFailed(String),
    Cancelled,
}

/// Where an embedding task stands.
pub enum EmbeddingStatus {
    Pending,
    InProgress,
    Completed,
    Failed(String),
}

/// Progress of embedding a book.
pub struct EmbeddingProgress {
    pub book_id: String,
    pub total_chapters: u32,
    pub processed_chapters: u32,
    pub total_chunks: u32,
    pub processed_chunks: u32,
    pub current_chapter: Option<String>,
    pub status: EmbeddingStatus,
}

/// An embedding task for one book, stored under `book_dir`.
pub struct EmbeddingTask {
    pub book_id: crate::model::BookId,
    pub book_dir: String,
    pub dimensions: u32,
}

/// The outcome of embedding a book.
pub struct EmbeddingResult {
    pub book_id: String,
    pub total_chunks: u32,
    pub successful_chunks: u32,
    pub failed_chunks: u32,
}

// ---------------------------------------------------------------------------
// Signatures
// ---------------------------------------------------------------------------

/// The provider and model that embeddings are made with, and the dimensions asked for.
pub struct ActiveEmbeddingSignature {
    pub provider: String,
    pub model: String,
    pub requested_dimensions: Option<u32>,
}

/// The provider, model and dimensions recorded in a vector store.
pub struct VectorDbEmbeddingSignature {
    pub provider: String,
    pub model: String,
    pub dimensions: u32,
}

/// The message for disabled embedding.
pub open spec fn disabled_message() -> Seq<char> {
    "Embedding is disabled in settings"@
}

/// The active signature from the active provider's settings: the provider's name,
/// its model (the provider's default model where the setting is blank) and the
/// configured dimensions; an error where embedding is disabled.
pub fn get_active_embedding_signature(
    active: &EmbeddingProviderType,
    configured_model: &str,
    configured_dimensions: Option<u32>,
) -> (res: Result<ActiveEmbeddingSignature, EmbeddingTaskError>)
    ensures
        *active is Disabled <==> res is Err,
        res matches Err(e) ==> e matches EmbeddingTaskError::EmbeddingFailed(m) && m@
            == disabled_message(),
        res matches Ok(sig) ==> {
            &&& sig.provider@ == (if *active is OpenAI {
                "openai"@
            } else {
                "gemini"@
            })
            &&& sig.model@ == (if is_blank(configured_model@) {
                if *active is OpenAI {
                    "text-embedding-3-small"@
                } else {
                    "text-embedding-004"@
                }
            } else {
                configured_model@
            })
            &&& sig.requested_dimensions == configured_dimensions
        },
{
    let (provider, default_model) = match active {
        EmbeddingProviderType::OpenAI => ("openai", "text-embedding-3-small"),
        EmbeddingProviderType::Gemini => ("gemini", "text-embedding-004"),
        EmbeddingProviderType::Disabled => {
            return Err(
                EmbeddingTaskError::EmbeddingFailed(
                    String::from_str("Embedding is disabled in settings"),
                ),
            );
        },
    };
    let mc = chars_of(configured_model);
    let model = if crate::text::blank(mc.as_slice()) {
        String::from_str(default_model)
    } else {
        String::from_str(configured_model)
    };
    Ok(
        ActiveEmbeddingSignature {
            provider: String::from_str(provider),
            model,
            requested_dimensions: configured_dimensions,
        },
    )
}

/// The message for a store that holds vectors but records no signature.
pub open spec fn missing_signature_message() -> Seq<char> {
    "Vector DB signature missing (old vectors.db). Please rebuild embeddings."@
}

/// The message for a store made with another provider or model.
pub open spec fn signature_mismatch_message(
    db_provider: Seq<char>,
    db_model: Seq<char>,
    provider: Seq<char>,
    model: Seq<char>,
) -> Seq<char> {
    "Vector DB embedding signature mismatch. DB uses "@ + db_provider + " / "@ + db_model
        + ", but settings are "@ + provider + " / "@ + model + ". Please rebuild embeddings."@
}

/// The message for a store made with other dimensions.
pub open spec fn dimensions_mismatch_message(db_dims: nat, dims: nat) -> Seq<char> {
    "Vector DB embedding dimensions mismatch. DB dim="@ + decimal(db_dims) + ", settings dim="@
        + decimal(dims) + ". Please rebuild embeddings."@
}

/// The error, if any, of using a vector store with signature `existing` and
/// `embedding_count` vectors under the active signature `expected`.
pub open spec fn signature_problem(
    existing: Option<VectorDbEmbeddingSignature>,
    embedding_count: nat,
    expected: ActiveEmbeddingSignature,
) -> Option<Seq<char>> {
    match existing {
        None => if embedding_count > 0 {
            Some(missing_signature_message())
        } else {
            None
        },
        Some(sig) => if sig.provider@ != expected.provider@ || sig.model@ != expected.model@ {
            Some(
                signature_mismatch_message(
                    sig.provider@,
                    sig.model@,
                    expected.provider@,
                    expected.model@,
                ),
            )
        } else {
            match expected.requested_dimensions {
                Some(d) => if sig.dimensions != d {
                    Some(dimensions_mismatch_message(sig.dimensions as nat, d as nat))
                } else {
                    None
                },
                None => None,
            }
        },
    }
}

fn push_str(v: &mut Vec<char>, s: &str)
    ensures
        final(v)@ == old(v)@ + s@,
{
    let c = chars_of(s);
    append_chars(v, c.as_slice());
}

/// Checks that a vector store with signature `existing_sig` and `embedding_count`
/// vectors can take vectors made under `expected`, and hands the signature back.
pub fn require_compatible_vectors_db(
    existing_sig: Option<VectorDbEmbeddingSignature>,
    embedding_count: usize,
    expected: &ActiveEmbeddingSignature,
) -> (res: Result<Option<VectorDbEmbeddingSignature>, EmbeddingTaskError>)
    ensures
        match signature_problem(existing_sig, embedding_count as nat, *expected) {
            Some(m) => res matches Err(e) && e matches EmbeddingTaskError::EmbeddingFailed(msg)
                && msg@ == m,
            None => res matches Ok(s) && s == existing_sig,
        },
{
    match &existing_sig {
        None => {
            if embedding_count > 0 {
                return Err(
                    EmbeddingTaskError::EmbeddingFailed(
                        String::from_str(
                            "Vector DB signature missing (old vectors.db). Please rebuild embeddings.",
                        ),
                    ),
                );
            }
        },
        Some(sig) => {
            let same_provider = crate::text::str_eq(sig.provider.as_str(), expected.provider.as_str());
            let same_model = crate::text::str_eq(sig.model.as_str(), expected.model.as_str());
            if !same_provider || !same_model {
                let mut m: Vec<char> = Vec::new();
                push_str(&mut m, "Vector DB embedding signature mismatch. DB uses ");
                push_str(&mut m, sig.provider.as_str());
                push_str(&mut m, " / ");
                push_str(&mut m, sig.model.as_str());
                push_str(&mut m, ", but settings are ");
                push_str(&mut m, expected.provider.as_str());
                push_str(&mut m, " / ");
                push_str(&mut m, expected.model.as_str());
                push_str(&mut m, ". Please rebuild embeddings.");
                return Err(EmbeddingTaskError::EmbeddingFailed(string_of(&m)));
            }
            match expected.requested_dimensions {
                Some(d) => {
                    if sig.dimensions != d {
                        let mut m: Vec<char> = Vec::new();
                        push_str(&mut m, "Vector DB embedding dimensions mismatch. DB dim=");
                        let a = decimal_chars(sig.dimensions);
                        append_chars(&mut m, a.as_slice());
                        push_str(&mut m, ", settings dim=");
                        let b = decimal_chars(d);
                        append_chars(&mut m, b.as_slice());
                        push_str(&mut m, ". Please rebuild embeddings.");
                        return Err(EmbeddingTaskError::EmbeddingFailed(string_of(&m)));
                    }
                },
                None => {},
            }
        },
    }
    Ok(existing_sig)
}

// ---------------------------------------------------------------------------
// Chunking
// ---------------------------------------------------------------------------

/// `c` is the paragraph chunk planned as `p` for chapter `chapter_id`, with a fresh
/// identifier.
pub open spec fn chunk_matches(c: Chunk, chapter_id: Seq<char>, p: PlannedChunk) -> bool {
    &&& c.id.0@.len() == 36
    &&& c.chapter_id@ == chapter_id
    &&& c.chunk_type == ChunkType::Paragraph
    &&& c.content@ == p.0
    &&& c.chunk_index == p.1
    &&& c.char_start == p.2
    &&& c.char_end == p.3
    &&& strs(c.metadata.entities_mentioned@) == p.4
    &&& c.metadata.timestamp_marker is None
}

/// The chunks are the planned chunks of `text`, one by one.
pub open spec fn chunks_match(
    res: Seq<Chunk>,
    chapter_id: Seq<char>,
    text: Seq<char>,
    ents: Seq<EntityInfo>,
) -> bool {
    &&& res.len() == planned_chunks(text, ents).len()
    &&& forall|i: int|
        0 <= i < res.len() ==> chunk_matches(#[trigger] res[i], chapter_id, planned_chunks(text, ents)[i])
}

fn copy_strings(v: &Vec<String>) -> (res: Vec<String>)
    ensures
        strs(res@) == strs(v@),
{
    let mut res: Vec<String> = Vec::new();
    let mut i: usize = 0;
    while i < v.len()
        invariant
            i <= v@.len(),
            strs(res@) == strs(v@).take(i as int),
        decreases v.len() - i,
    {
        let s = String::from_str(v[i].as_str());
        proof {
            assert(strs(res@.push(s)) =~= strs(res@).push(s@));
            assert(strs(res@).push(s@) =~= strs(v@).take(i + 1));
        }
        res.push(s);
        i = i + 1;
    }
    assert(strs(v@).take(v@.len() as int) == strs(v@));
    res
}

/// Paragraph chunks of a chapter, each tagged with the entities it mentions.
pub fn chunk_chapter(text: &str, chapter_id: &str, entities: &[EntityInfo]) -> (res: Vec<Chunk>)
    requires
        text@.len() + 2 <= u32::MAX,
    ensures
        chunks_match(res@, chapter_id@, text@, entities@),
{
    let plans = plan_chunks(text, entities);
    let mut out: Vec<Chunk> = Vec::new();
    let mut i: usize = 0;
    while i < plans.len()
        invariant
            i <= plans@.len(),
            plans@.len() == planned_chunks(text@, entities@).len(),
            forall|k: int|
                0 <= k < plans@.len() ==> crate::embedding::chunk_is(
                    #[trigger] plans@[k],
                    planned_chunks(text@, entities@)[k],
                ),
            out@.len() == i,
            forall|k: int|
                0 <= k < i ==> chunk_matches(
                    #[trigger] out@[k],
                    chapter_id@,
                    planned_chunks(text@, entities@)[k],
                ),
        decreases plans.len() - i,
    {
        let info = &plans[i].0;
        let ids = copy_strings(&plans[i].1);
        let chunk = Chunk::new_paragraph(
            String::from_str(chapter_id),
            info.index,
            String::from_str(info.content.as_str()),
            info.char_start,
            info.char_end,
        ).with_entities(ids);
        proof {
            assert(crate::embedding::chunk_is(plans@[i as int], planned_chunks(text@, entities@)[i as int]));
        }
        out.push(chunk);
        i = i + 1;
    }
    out
}

/// A chunk of a chapter to embed: content, index, start and end offsets.
pub type EmbedChunk = (Seq<char>, nat, nat, nat);

/// The chunking state after some paragraphs: closed chunks, the open chunk's text,
/// its start offset, the running offset and the next chunk index.
pub type EmbedState = (Seq<EmbedChunk>, Seq<char>, nat, nat, nat);

/// The state with the open chunk closed first when `p` would take it past
/// `CHUNK_SIZE_TARGET` characters.
pub open spec fn close_before(st: EmbedState, p: Seq<char>) -> EmbedState {
    if st.1.len() > 0 && st.1.len() + 2 + p.len() > CHUNK_SIZE_TARGET {
        (st.0.push((st.1, st.4, st.2, st.3)), Seq::<char>::empty(), st.2, st.3, st.4 + 1)
    } else {
        st
    }
}

/// Adding paragraphs to chunks for embedding: an open chunk that the next paragraph
/// would take past `CHUNK_SIZE_TARGET` characters is closed first; the paragraph joins
/// the open chunk (after a blank line), the offset advances by its length plus two,
/// and a chunk that reaches `CHUNK_SIZE_TARGET` characters is closed.
pub open spec fn embed_fold(paras: Seq<Seq<char>>) -> EmbedState
    decreases paras.len(),
{
    if paras.len() == 0 {
        (Seq::<EmbedChunk>::empty(), Seq::<char>::empty(), 0, 0, 0)
    } else {
        let p = paras.last();
        let st = close_before(embed_fold(paras.drop_last()), p);
        let start = if st.1.len() == 0 {
            st.3
        } else {
            st.2
        };
        let cur = if st.1.len() == 0 {
            p
        } else {
            st.1 + seq!['\n', '\n'] + p
        };
        let off = st.3 + p.len() + 2;
        if cur.len() >= CHUNK_SIZE_TARGET {
            (st.0.push((cur, st.4, start, off)), Seq::<char>::empty(), start, off, st.4 + 1)
        } else {
            (st.0, cur, start, off, st.4)
        }
    }
}

/// The chunks of a chapter to embed: after all paragraphs, an open chunk of at least
/// `CHUNK_SIZE_MIN` characters becomes a chunk of its own; a shorter one is appended
/// to the last chunk (after a blank line, extending its end), or becomes the only
/// chunk.
pub open spec fn embedding_chunks(text: Seq<char>) -> Seq<EmbedChunk> {
    let st = embed_fold(chunk_paragraphs(text));
    if st.1.len() >= CHUNK_SIZE_MIN {
        st.0.push((st.1, st.4, st.2, st.3))
    } else if st.1.len() > 0 && st.0.len() > 0 {
        let last = st.0.last();
        st.0.update(st.0.len() - 1, (last.0 + seq!['\n', '\n'] + st.1, last.1, last.2, st.3))
    } else if st.1.len() > 0 {
        st.0.push((st.1, st.4, st.2, st.3))
    } else {
        st.0
    }
}

proof fn lemma_embed_fold_bounds(paras: Seq<Seq<char>>)
    ensures
        embed_fold(paras).3 == total_len(paras, 2),
        embed_fold(paras).2 <= embed_fold(paras).3,
        embed_fold(paras).4 + (if embed_fold(paras).1.len() > 0 {
            1nat
        } else {
            0nat
        }) <= paras.len(),
        embed_fold(paras).1.len() < CHUNK_SIZE_TARGET,
        embed_fold(paras).0.len() == embed_fold(paras).4,
    decreases paras.len(),
{
    if paras.len() > 0 {
        lemma_embed_fold_bounds(paras.drop_last());
    }
}

/// `c` is the chunk `p` of chapter `chapter_id`, with a fresh identifier and no
/// entities.
pub open spec fn embed_chunk_is(c: Chunk, chapter_id: Seq<char>, p: EmbedChunk) -> bool {
    &&& c.id.0@.len() == 36
    &&& c.chapter_id@ == chapter_id
    &&& c.chunk_type == ChunkType::Paragraph
    &&& c.content@ == p.0
    &&& c.chunk_index == p.1
    &&& c.char_start == p.2
    &&& c.char_end == p.3
    &&& c.metadata.entities_mentioned@.len() == 0
    &&& c.metadata.timestamp_marker is None
}

/// A paragraph chunk of a chapter.
pub fn create_chunk(
    content: &str,
    chapter_id: &ChapterId,
    chapter_index: u32,
    chunk_index: u32,
    char_start: u32,
    char_end: u32,
) -> (res: Chunk)
    ensures
        embed_chunk_is(res, chapter_id.0@, (content@, chunk_index as nat, char_start as nat, char_end as nat)),
{
    Chunk::new_paragraph(
        chapter_id.to_string(),
        chunk_index,
        String::from_str(content),
        char_start,
        char_end,
    )
}

/// The chunks of a chapter to embed, as `embedding_chunks` plans them.
pub fn chunk_text_for_embedding(content: &str, chapter_id: &ChapterId, chapter_index: u32) -> (res:
    Vec<Chunk>)
    requires
        content@.len() + 2 <= u32::MAX,
    ensures
        res@.len() == embedding_chunks(content@).len(),
        forall|i: int|
            0 <= i < res@.len() ==> embed_chunk_is(
                #[trigger] res@[i],
                chapter_id.0@,
                embedding_chunks(content@)[i],
            ),
{
    let chars = chars_of(content);
    let sep = vec!['\n', '\n'];
    assert(sep@ == seq!['\n', '\n']);
    let pieces = split_chars(chars.as_slice(), sep.as_slice());
    let paras = trimmed_nonempty_pieces(&pieces);
    let ghost ps = views(paras@);
    proof {
        lemma_split_total(content@, seq!['\n', '\n']);
        lemma_trimmed_total(split(content@, seq!['\n', '\n']), 2);
        lemma_embed_fold_bounds(ps);
        lemma_split_bounds(content@, seq!['\n', '\n']);
        lemma_trimmed_nonempty_bounds(split(content@, seq!['\n', '\n']), content@.len());
    }
    let mut plans: Vec<(Vec<char>, u32, u32, u32)> = Vec::new();
    let mut cur: Vec<char> = Vec::new();
    let mut chunk_start: u32 = 0;
    let mut char_offset: u32 = 0;
    let mut chunk_index: u32 = 0;
    let mut i: usize = 0;
    while i < paras.len()
        invariant
            i <= paras@.len(),
            ps == views(paras@),
            ps == chunk_paragraphs(content@),
            total_len(ps, 2) <= content@.len() + 2,
            ps.len() <= content@.len() + 1,
            content@.len() + 2 <= u32::MAX,
            forall|k: int| 0 <= k < ps.len() ==> (#[trigger] ps[k]).len() <= content@.len(),
            ({
                let st = embed_fold(ps.take(i as int));
                &&& cur@ == st.1
                &&& chunk_start == st.2
                &&& char_offset == st.3
                &&& chunk_index == st.4
                &&& plans@.len() == st.0.len()
                &&& forall|k: int|
                    0 <= k < plans@.len() ==> plan_is(#[trigger] plans@[k], st.0[k])
            }),
        decreases paras.len() - i,
    {
        let ghost st0 = embed_fold(ps.take(i as int));
        let ghost p = ps[i as int];
        proof {
            assert(ps.take(i + 1).drop_last() == ps.take(i as int));
            assert(ps.take(i + 1).last() == p);
            lemma_embed_fold_bounds(ps.take(i + 1));
            lemma_embed_fold_bounds(ps.take(i as int));
            crate::embedding::lemma_total_len_prefix(ps, i + 1);
            assert(total_len(ps.take(i + 1), 2) == total_len(ps.take(i as int), 2) + p.len() + 2);
        }
        let para = &paras[i];
        let para_chars = para.len();
        proof {
            assert(para@.len() == p.len());
        }
        if cur.len() > 0 && para_chars + 2 > CHUNK_SIZE_TARGET - cur.len() {
            let done = copy_chars(&cur);
            plans.push((done, chunk_index, chunk_start, char_offset));
            chunk_index = chunk_index + 1;
            cur = Vec::new();
        }
        let ghost st = close_before(st0, p);
        proof {
            assert(cur@ == st.1);
            assert(chunk_start == st.2);
            assert(char_offset == st.3);
            assert(chunk_index == st.4);
            assert forall|k: int| 0 <= k < plans@.len() implies plan_is(#[trigger] plans@[k], st.0[k]) by {
                if k < st0.0.len() {
                    assert(st.0[k] == st0.0[k]);
                }
            }
        }
        if cur.len() == 0 {
            chunk_start = char_offset;
        } else {
            cur.push('\n');
            cur.push('\n');
        }
        append_chars(&mut cur, para.as_slice());
        char_offset = char_offset + para_chars as u32 + 2;
        proof {
            let ncur = if st.1.len() == 0 {
                p
            } else {
                st.1 + seq!['\n', '\n'] + p
            };
            assert(cur@ == ncur);
        }
        if cur.len() >= CHUNK_SIZE_TARGET {
            let done = copy_chars(&cur);
            plans.push((done, chunk_index, chunk_start, char_offset));
            chunk_index = chunk_index + 1;
            cur = Vec::new();
        }
        i = i + 1;
        proof {
            let nst = embed_fold(ps.take(i as int));
            assert forall|k: int| 0 <= k < plans@.len() implies plan_is(#[trigger] plans@[k], nst.0[k]) by {
                if k < st.0.len() {
                    assert(nst.0[k] == st.0[k]);
                }
            }
        }
    }
    proof {
        assert(ps.take(ps.len() as int) == ps);
    }
    let ghost st = embed_fold(ps);
    let ghost pl = embedding_chunks(content@);
    if cur.len() >= CHUNK_SIZE_MIN {
        plans.push((cur, chunk_index, chunk_start, char_offset));
        proof {
            assert forall|k: int| 0 <= k < plans@.len() implies plan_is(#[trigger] plans@[k], pl[k]) by {
                if k < st.0.len() {
                    assert(pl[k] == st.0[k]);
                }
            }
        }
    } else if cur.len() > 0 && plans.len() > 0 {
        assert(plan_is(plans@[plans@.len() - 1], st.0.last()));
        let ghost before = plans@;
        let last = plans.pop().unwrap();
        assert(last == before.last());
        let (mut text, idx, start, _end) = last;
        let ghost t0 = text@;
        text.push('\n');
        text.push('\n');
        append_chars(&mut text, cur.as_slice());
        assert(text@ == t0 + seq!['\n', '\n'] + cur@);
        plans.push((text, idx, start, char_offset));
        proof {
            assert(plans@.len() == st.0.len());
            assert(plan_is(plans@[plans@.len() - 1], pl[plans@.len() - 1]));
            assert forall|k: int| 0 <= k < plans@.len() implies plan_is(#[trigger] plans@[k], pl[k]) by {
                if k < st.0.len() - 1 {
                    assert(pl[k] == st.0[k]);
                }
            }
        }
    } else if cur.len() > 0 {
        plans.push((cur, chunk_index, chunk_start, char_offset));
        proof {
            assert forall|k: int| 0 <= k < plans@.len() implies plan_is(#[trigger] plans@[k], pl[k]) by {
                if k < st.0.len() {
                    assert(pl[k] == st.0[k]);
                }
            }
        }
    }
    let mut out: Vec<Chunk> = Vec::new();
    let mut j: usize = 0;
    while j < plans.len()
        invariant
            j <= plans@.len(),
            plans@.len() == pl.len(),
            pl == embedding_chunks(content@),
            forall|k: int| 0 <= k < plans@.len() ==> plan_is(#[trigger] plans@[k], pl[k]),
            out@.len() == j,
            forall|k: int| 0 <= k < j ==> embed_chunk_is(#[trigger] out@[k], chapter_id.0@, pl[k]),
        decreases plans.len() - j,
    {
        let entry = &plans[j];
        let text = string_of(entry.0.as_slice());
        assert(plan_is(plans@[j as int], pl[j as int]));
        let c = create_chunk(text.as_str(), chapter_id, chapter_index, entry.1, entry.2, entry.3);
        out.push(c);
        j = j + 1;
    }
    out
}

/// `e` holds the planned chunk `p`.
pub open spec fn plan_is(e: (Vec<char>, u32, u32, u32), p: EmbedChunk) -> bool {
    &&& e.0@ == p.0
    &&& e.1 == p.1
    &&& e.2 == p.2
    &&& e.3 == p.3
}

fn copy_chars(v: &Vec<char>) -> (res: Vec<char>)
    ensures
        res@ == v@,
{
    crate::text::slice_to_vec(v.as_slice(), 0, v.len())
}

// ---------------------------------------------------------------------------
// Which books' vector stores need rebuilding
// ---------------------------------------------------------------------------

/// A book whose vector store does not fit the current embedding settings.
pub struct VectorDbIncompatibilityInfo {
    pub book_id: String,
    pub title: String,
    pub chunk_count: usize,
    pub embedding_count: usize,
    pub db_signature: Option<VectorDbEmbeddingSignature>,
    pub reason: String,
}

/// The current embedding settings and the books whose vector stores do not fit them.
pub struct VectorDbCompatibilityResult {
    pub current: CurrentEmbeddingSignatureInfo,
    pub incompatible: Vec<VectorDbIncompatibilityInfo>,
    pub total_books: usize,
}

/// Why a vector store with signature `sig` does not fit the current settings, if it
/// does not: no signature; another provider or model; or other dimensions where the
/// settings fix them.
pub open spec fn incompatibility_reason(sig: Option<VectorDbEmbeddingSignature>, current: CurrentEmbeddingSignatureInfo) -> Option<
    Seq<char>,
> {
    match sig {
        None => Some("向量库缺少签名信息（旧版本），需要重建"@),
        Some(s) => if s.provider@ != current.provider@ || s.model@ != current.model@ {
            Some(
                "签名不一致：向量库为 "@ + s.provider@ + "/"@ + s.model@ + "，当前设置为 "@ + current.provider@ + "/"@
                    + current.model@,
            )
        } else {
            match current.dimensions {
                Some(d) => if s.dimensions != d {
                    Some("维度不一致：向量库为 "@ + decimal(s.dimensions as nat) + "，当前设置为 "@ + decimal(d as nat))
                } else {
                    None
                },
                None => None,
            }
        },
    }
}

/// Why a vector store does not fit the current settings (see `incompatibility_reason`).
pub fn vector_db_reason(sig: &Option<VectorDbEmbeddingSignature>, current: &CurrentEmbeddingSignatureInfo) -> (res:
    Option<String>)
    ensures
        match res {
            Some(r) => incompatibility_reason(*sig, *current) == Some(r@),
            None => incompatibility_reason(*sig, *current) is None,
        },
{
    match sig {
        None => Some(String::from_str("向量库缺少签名信息（旧版本），需要重建")),
        Some(s) => {
            if !crate::text::str_eq(s.provider.as_str(), current.provider.as_str()) || !crate::text::str_eq(
                s.model.as_str(),
                current.model.as_str(),
            ) {
                let mut m: Vec<char> = Vec::new();
                push_str(&mut m, "签名不一致：向量库为 ");
                push_str(&mut m, s.provider.as_str());
                push_str(&mut m, "/");
                push_str(&mut m, s.model.as_str());
                push_str(&mut m, "，当前设置为 ");
                push_str(&mut m, current.provider.as_str());
                push_str(&mut m, "/");
                push_str(&mut m, current.model.as_str());
                assert(m@ =~= "签名不一致：向量库为 "@ + s.provider@ + "/"@ + s.model@ + "，当前设置为 "@
                    + current.provider@ + "/"@ + current.model@);
                return Some(string_of(&m));
            }
            match current.dimensions {
                Some(d) => {
                    if s.dimensions != d {
                        let mut m: Vec<char> = Vec::new();
                        push_str(&mut m, "维度不一致：向量库为 ");
                        append_chars(&mut m, decimal_chars(s.dimensions).as_slice());
                        push_str(&mut m, "，当前设置为 ");
                        append_chars(&mut m, decimal_chars(d).as_slice());
                        assert(m@ =~= "维度不一致：向量库为 "@ + decimal(s.dimensions as nat) + "，当前设置为 "@
                            + decimal(d as nat));
                        Some(string_of(&m))
                    } else {
                        None
                    }
                },
                None => None,
            }
        },
    }
}

/// What was read of a book's vector store: its chunk and vector counts and signature,
/// or why it could not be opened.
pub enum VectorDbReading {
    Opened { chunk_count: usize, embedding_count: usize, signature: Option<VectorDbEmbeddingSignature> },
    Failed(String),
}

/// Whether, and why, a book's vector store needs rebuilding: a store that cannot be
/// opened does; one without vectors does not; otherwise where its signature does not
/// fit (see `incompatibility_reason`).
pub fn book_incompatibility(
    book_id: String,
    title: String,
    reading: VectorDbReading,
    current: &CurrentEmbeddingSignatureInfo,
) -> (res: Option<VectorDbIncompatibilityInfo>)
    ensures
        match reading {
            VectorDbReading::Failed(e) => res matches Some(info) && info.book_id == book_id && info.title == title
                && info.chunk_count == 0 && info.embedding_count == 0 && info.db_signature is None
                && info.reason@ == "无法打开 vectors.db: "@ + e@,
            VectorDbReading::Opened { chunk_count, embedding_count, signature } => if embedding_count == 0 {
                res is None
            } else {
                match incompatibility_reason(signature, *current) {
                    None => res is None,
                    Some(r) => res matches Some(info) && info.book_id == book_id && info.title == title
                        && info.chunk_count == chunk_count && info.embedding_count == embedding_count
                        && info.db_signature == signature && info.reason@ == r,
                }
            },
        },
{
    match reading {
        VectorDbReading::Failed(e) => {
            let mut m: Vec<char> = Vec::new();
            push_str(&mut m, "无法打开 vectors.db: ");
            push_str(&mut m, e.as_str());
            Some(
                VectorDbIncompatibilityInfo {
                    book_id,
                    title,
                    chunk_count: 0,
                    embedding_count: 0,
                    db_signature: None,
                    reason: string_of(&m),
                },
            )
        },
        VectorDbReading::Opened { chunk_count, embedding_count, signature } => {
            if embedding_count == 0 {
                return None;
            }
            match vector_db_reason(&signature, current) {
                Some(reason) => Some(
                    VectorDbIncompatibilityInfo {
                        book_id,
                        title,
                        chunk_count,
                        embedding_count,
                        db_signature: signature,
                        reason,
                    },
                ),
                None => None,
            }
        },
    }
}

// ---------------------------------------------------------------------------
// Embedding one entity
// ---------------------------------------------------------------------------

/// Why an entity cannot be embedded into a vector store with `embedding_count` vectors
/// and signature `sig` under the current settings, before any embedding is made.
pub open spec fn entity_store_problem(
    embedding_count: nat,
    sig: Option<VectorDbEmbeddingSignature>,
    current: CurrentEmbeddingSignatureInfo,
) -> Option<Seq<char>> {
    if current.provider@ == "disabled"@ {
        Some("Embedding 已禁用，请先在设置中配置 Embedding 服务"@)
    } else {
        match sig {
            None => if embedding_count > 0 {
                Some("向量库缺少签名信息（旧版本），请先重建向量库"@)
            } else {
                None
            },
            Some(s) => if s.provider@ != current.provider@ || s.model@ != current.model@ {
                Some(
                    "向量库签名不一致：向量库为 "@ + s.provider@ + "/"@ + s.model@ + "，当前设置为 "@
                        + current.provider@ + "/"@ + current.model@ + "。请先重建向量库。"@,
                )
            } else {
                match current.dimensions {
                    Some(d) => if s.dimensions != d {
                        Some(
                            "向量库维度不一致：向量库为 "@ + decimal(s.dimensions as nat) + "，当前设置为 "@
                                + decimal(d as nat) + "。请先重建向量库。"@,
                        )
                    } else {
                        None
                    },
                    None => None,
                }
            },
        }
    }
}

/// Checks a vector store before an entity is embedded into it (see
/// `entity_store_problem`).
pub fn check_entity_store(
    embedding_count: usize,
    sig: &Option<VectorDbEmbeddingSignature>,
    current: &CurrentEmbeddingSignatureInfo,
) -> (res: Result<(), String>)
    ensures
        match entity_store_problem(embedding_count as nat, *sig, *current) {
            Some(m) => res matches Err(e) && e@ == m,
            None => res is Ok,
        },
{
    if crate::text::str_eq(current.provider.as_str(), "disabled") {
        return Err(String::from_str("Embedding 已禁用，请先在设置中配置 Embedding 服务"));
    }
    match sig {
        None => {
            if embedding_count > 0 {
                return Err(String::from_str("向量库缺少签名信息（旧版本），请先重建向量库"));
            }
            Ok(())
        },
        Some(s) => {
            if !crate::text::str_eq(s.provider.as_str(), current.provider.as_str()) || !crate::text::str_eq(
                s.model.as_str(),
                current.model.as_str(),
            ) {
                let mut m: Vec<char> = Vec::new();
                push_str(&mut m, "向量库签名不一致：向量库为 ");
                push_str(&mut m, s.provider.as_str());
                push_str(&mut m, "/");
                push_str(&mut m, s.model.as_str());
                push_str(&mut m, "，当前设置为 ");
                push_str(&mut m, current.provider.as_str());
                push_str(&mut m, "/");
                push_str(&mut m, current.model.as_str());
                push_str(&mut m, "。请先重建向量库。");
                assert(m@ =~= "向量库签名不一致：向量库为 "@ + s.provider@ + "/"@ + s.model@ + "，当前设置为 "@
                    + current.provider@ + "/"@ + current.model@ + "。请先重建向量库。"@);
                return Err(string_of(&m));
            }
            match current.dimensions {
                Some(d) => {
                    if s.dimensions != d {
                        let mut m: Vec<char> = Vec::new();
                        push_str(&mut m, "向量库维度不一致：向量库为 ");
                        append_chars(&mut m, decimal_chars(s.dimensions).as_slice());
                        push_str(&mut m, "，当前设置为 ");
                        append_chars(&mut m, decimal_chars(d).as_slice());
                        push_str(&mut m, "。请先重建向量库。");
                        assert(m@ =~= "向量库维度不一致：向量库为 "@ + decimal(s.dimensions as nat) + "，当前设置为 "@
                            + decimal(d as nat) + "。请先重建向量库。"@);
                        return Err(string_of(&m));
                    }
                    Ok(())
                },
                None => Ok(()),
            }
        },
    }
}

/// Why an entity's embedding of `dims` dimensions cannot be stored: the store's
/// vectors, or the dimensions the settings fix, have another size.
pub open spec fn entity_dimensions_problem(
    sig: Option<VectorDbEmbeddingSignature>,
    current: CurrentEmbeddingSignatureInfo,
    dims: u32,
) -> Option<Seq<char>> {
    match sig {
        Some(s) if s.dimensions != dims => Some(
            "向量维度不一致：向量库为 "@ + decimal(s.dimensions as nat) + "，当前 embedding 为 "@ + decimal(
                dims as nat,
            ) + "。请先重建向量库。"@,
        ),
        _ => match current.dimensions {
            Some(d) => if d != dims {
                Some(
                    "Embedding API 返回维度 "@ + decimal(dims as nat) + "，但设置中 dimensions 为 "@ + decimal(
                        d as nat,
                    ) + "。请调整 dimensions 并重建向量库。"@,
                )
            } else {
                None
            },
            None => None,
        },
    }
}

/// Checks an entity's embedding of `dims` dimensions against the store and the
/// settings (see `entity_dimensions_problem`); where it fits, says whether the store
/// (new, without vectors or signature) records the current signature first.
pub fn check_entity_dimensions(
    embedding_count: usize,
    sig: &Option<VectorDbEmbeddingSignature>,
    current: &CurrentEmbeddingSignatureInfo,
    dims: u32,
) -> (res: Result<bool, String>)
    ensures
        match entity_dimensions_problem(*sig, *current, dims) {
            Some(m) => res matches Err(e) && e@ == m,
            None => res == Ok::<bool, String>(sig is None && embedding_count == 0),
        },
{
    match sig {
        Some(s) => {
            if s.dimensions != dims {
                let mut m: Vec<char> = Vec::new();
                push_str(&mut m, "向量维度不一致：向量库为 ");
                append_chars(&mut m, decimal_chars(s.dimensions).as_slice());
                push_str(&mut m, "，当前 embedding 为 ");
                append_chars(&mut m, decimal_chars(dims).as_slice());
                push_str(&mut m, "。请先重建向量库。");
                assert(m@ =~= "向量维度不一致：向量库为 "@ + decimal(s.dimensions as nat) + "，当前 embedding 为 "@
                    + decimal(dims as nat) + "。请先重建向量库。"@);
                return Err(string_of(&m));
            }
        },
        None => {},
    }
    match current.dimensions {
        Some(d) => {
            if d != dims {
                let mut m: Vec<char> = Vec::new();
                push_str(&mut m, "Embedding API 返回维度 ");
                append_chars(&mut m, decimal_chars(dims).as_slice());
                push_str(&mut m, "，但设置中 dimensions 为 ");
                append_chars(&mut m, decimal_chars(d).as_slice());
                push_str(&mut m, "。请调整 dimensions 并重建向量库。");
                assert(m@ =~= "Embedding API 返回维度 "@ + decimal(dims as nat) + "，但设置中 dimensions 为 "@
                    + decimal(d as nat) + "。请调整 dimensions 并重建向量库。"@);
                return Err(string_of(&m));
            }
        },
        None => {},
    }
    Ok(sig.is_none() && embedding_count == 0)
}

} // verus!
