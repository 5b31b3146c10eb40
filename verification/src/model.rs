//! The library's core data: identifiers, books and chapters, cards, story bible
//! entities, chunks, providers, agents and prompt cards.
use vstd::prelude::*;
use std::collections::HashMap;
use crate::clock::{now, Timestamp};
use crate::text::{append_chars, chars_of, str_eq, string_of};

verus! {

// ---------------------------------------------------------------------------
// Identifiers
// ---------------------------------------------------------------------------

/// A fresh random (version 4) UUID in its hyphenated form.
///
/// Calls `uuid::Uuid::new_v4` and formats it with `to_string`, which the crate
/// documents as the hyphenated form of 36 characters. The value is random: nothing
/// else is stated of it.
#[verifier::external_body]
pub(crate) fn new_uuid_string() -> (res: String)
    ensures
        res@.len() == 36,
{
    uuid::Uuid::new_v4().to_string()
}

/// Identifier of a book.
#[derive(Debug, Clone, PartialEq, Eq, Hash)]
pub struct BookId(pub String);

impl BookId {
    /// A fresh random identifier.
    pub fn new() -> (res: Self)
        ensures
            res.0@.len() == 36,
    {
        BookId(new_uuid_string())
    }

    /// The identifier with the given text.
    pub fn from_string(s: String) -> (res: Self)
        ensures
            res.0@ == s@,
    {
        BookId(s)
    }

    /// The identifier's text.
    pub fn as_str(&self) -> (res: &str)
        ensures
            res@ == self.0@,
    {
        self.0.as_str()
    }

    /// The identifier's text, as displayed.
    pub fn to_string(&self) -> (res: String)
        ensures
            res@ == self.0@,
    {
        String::from_str(self.0.as_str())
    }
}

/// Identifier of a chapter.
#[derive(Debug, Clone, PartialEq, Eq, Hash)]
pub struct ChapterId(pub String);

impl ChapterId {
    /// A fresh random identifier.
    pub fn new() -> (res: Self)
        ensures
            res.0@.len() == 36,
    {
        ChapterId(new_uuid_string())
    }

    /// The identifier with the given text.
    pub fn from_string(s: String) -> (res: Self)
        ensures
            res.0@ == s@,
    {
        ChapterId(s)
    }

    /// The identifier's text.
    pub fn as_str(&self) -> (res: &str)
        ensures
            res@ == self.0@,
    {
        self.0.as_str()
    }

    /// The identifier's text, as displayed.
    pub fn to_string(&self) -> (res: String)
        ensures
            res@ == self.0@,
    {
        String::from_str(self.0.as_str())
    }
}

/// Identifier of a card.
#[derive(Debug, Clone, PartialEq, Eq, Hash)]
pub struct CardId(pub String);

impl CardId {
    /// A fresh random identifier.
    pub fn new() -> (res: Self)
        ensures
            res.0@.len() == 36,
    {
        CardId(new_uuid_string())
    }

    /// The identifier with the given text.
    pub fn from_string(s: String) -> (res: Self)
        ensures
            res.0@ == s@,
    {
        CardId(s)
    }

    /// The identifier's text.
    pub fn as_str(&self) -> (res: &str)
        ensures
            res@ == self.0@,
    {
        self.0.as_str()
    }

    /// The identifier's text, as displayed.
    pub fn to_string(&self) -> (res: String)
        ensures
            res@ == self.0@,
    {
        String::from_str(self.0.as_str())
    }
}

/// Identifier of a story bible entity.
#[derive(Debug, Clone, PartialEq, Eq, Hash)]
pub struct EntityId(pub String);

impl EntityId {
    /// A fresh random identifier.
    pub fn new() -> (res: Self)
        ensures
            res.0@.len() == 36,
    {
        EntityId(new_uuid_string())
    }

    /// The identifier with the given text.
    pub fn from_string(s: String) -> (res: Self)
        ensures
            res.0@ == s@,
    {
        EntityId(s)
    }

    /// The identifier's text.
    pub fn as_str(&self) -> (res: &str)
        ensures
            res@ == self.0@,
    {
        self.0.as_str()
    }

    /// The identifier's text, as displayed.
    pub fn to_string(&self) -> (res: String)
        ensures
            res@ == self.0@,
    {
        String::from_str(self.0.as_str())
    }
}

// ---------------------------------------------------------------------------
// Books and chapters
// ---------------------------------------------------------------------------

/// Where a book is in its life cycle.
pub enum BookStatus {
    Importing,
    Ready,
    Analyzing,
    Completed,
    Error(String),
}

/// A book of the library.
pub struct Book {
    pub id: BookId,
    pub title: String,
    pub author: Option<String>,
    pub cover_path: Option<String>,
    pub total_chapters: u32,
    pub analyzed_chapters: u32,
    pub created_at: Timestamp,
    pub updated_at: Timestamp,
    pub status: BookStatus,
}

impl Book {
    /// A new book being imported, with a fresh identifier and no chapters yet.
    pub fn new(title: String, author: Option<String>) -> (res: Self)
        ensures
            res.id.0@.len() == 36,
            res.title@ == title@,
            res.author == author,
            res.cover_path is None,
            res.total_chapters == 0,
            res.analyzed_chapters == 0,
            res.created_at == res.updated_at,
            res.status is Importing,
    {
        let now = now();
        Book {
            id: BookId::new(),
            title,
            author,
            cover_path: None,
            total_chapters: 0,
            analyzed_chapters: 0,
            created_at: now,
            updated_at: now,
            status: BookStatus::Importing,
        }
    }
}

/// A chapter of a book.
pub struct Chapter {
    pub id: ChapterId,
    pub book_id: BookId,
    pub index: u32,
    pub title: Option<String>,
    pub parent_title: Option<String>,
    pub char_count: u32,
    pub analyzed: bool,
    pub technique_count: u32,
    pub knowledge_count: u32,
}

impl Chapter {
    /// A new, not yet analyzed chapter with a fresh identifier.
    pub fn new(
        book_id: BookId,
        index: u32,
        title: Option<String>,
        parent_title: Option<String>,
        char_count: u32,
    ) -> (res: Self)
        ensures
            res.id.0@.len() == 36,
            res.book_id == book_id,
            res.index == index,
            res.title == title,
            res.parent_title == parent_title,
            res.char_count == char_count,
            !res.analyzed,
            res.technique_count == 0,
            res.knowledge_count == 0,
    {
        Chapter {
            id: ChapterId::new(),
            book_id,
            index,
            title,
            parent_title,
            char_count,
            analyzed: false,
            technique_count: 0,
            knowledge_count: 0,
        }
    }
}

// ---------------------------------------------------------------------------
// Cards
// ---------------------------------------------------------------------------

/// Evidence for a card: where in the text it comes from.
pub struct Evidence {
    pub chapter_id: String,
    pub paragraph_index: u32,
    pub start_char: u32,
    pub end_char: u32,
    pub excerpt: String,
    pub hash: u64,
}

/// A writing technique found in a chapter.
pub struct TechniqueCard {
    pub id: String,
    pub chapter_id: String,
    pub technique_type: TechniqueType,
    pub title: String,
    pub description: String,
    pub mechanism: String,
    pub evidence: Vec<Evidence>,
    pub tags: Vec<String>,
    pub collected: bool,
    pub created_at: String,
}

/// Kinds of writing techniques.
pub enum TechniqueType {
    Structure,
    Scene,
    Character,
    Dialogue,
    Description,
    Pacing,
    Suspense,
    Foreshadowing,
    Theme,
    Voice,
    Other(String),
}

/// Kinds of knowledge cards.
pub enum KnowledgeType {
    Character,
    Setting,
    Event,
    Timeline,
}

/// Review status of a knowledge card.
#[derive(Debug, Clone, Copy, PartialEq, Eq)]
pub enum CardStatus {
    Pending,
    Accepted,
    Rejected,
    Merged,
}

pub open spec fn card_status_name(s: CardStatus) -> Seq<char> {
    match s {
        CardStatus::Pending => "pending"@,
        CardStatus::Accepted => "accepted"@,
        CardStatus::Rejected => "rejected"@,
        CardStatus::Merged => "merged"@,
    }
}

pub open spec fn card_status_of(s: Seq<char>) -> Option<CardStatus> {
    if s == "pending"@ {
        Some(CardStatus::Pending)
    } else if s == "accepted"@ {
        Some(CardStatus::Accepted)
    } else if s == "rejected"@ {
        Some(CardStatus::Rejected)
    } else if s == "merged"@ {
        Some(CardStatus::Merged)
    } else {
        None
    }
}

impl CardStatus {
    /// The status's name.
    pub fn as_str(&self) -> (res: &'static str)
        ensures
            res@ == card_status_name(*self),
    {
        match self {
            CardStatus::Pending => "pending",
            CardStatus::Accepted => "accepted",
            CardStatus::Rejected => "rejected",
            CardStatus::Merged => "merged",
        }
    }

    /// The status with the given name.
    pub fn parse(s: &str) -> (res: Option<Self>)
        ensures
            res == card_status_of(s@),
    {
        if str_eq(s, "pending") {
            Some(CardStatus::Pending)
        } else if str_eq(s, "accepted") {
            Some(CardStatus::Accepted)
        } else if str_eq(s, "rejected") {
            Some(CardStatus::Rejected)
        } else if str_eq(s, "merged") {
            Some(CardStatus::Merged)
        } else {
            None
        }
    }
}

/// How sure an extraction is.
pub enum Confidence {
    High,
    Medium,
    Low,
}

// ---------------------------------------------------------------------------
// Story bible
// ---------------------------------------------------------------------------

/// A character of the story.
pub struct Character {
    pub id: String,
    pub name: String,
    pub aliases: Vec<String>,
    pub description: String,
    pub traits: Vec<String>,
    pub role: CharacterRole,
    pub first_appearance: String,
    pub relationships: Vec<Relationship>,
    pub evidence: Vec<Evidence>,
    pub notes: String,
    pub updated_at: String,
}

/// The part a character plays.
pub enum CharacterRole {
    Protagonist,
    Antagonist,
    Supporting,
    Minor,
}

/// A relationship of a character to another.
pub struct Relationship {
    pub target_id: String,
    pub relation_type: String,
    pub description: String,
}

/// A setting of the story.
pub struct Setting {
    pub id: String,
    pub setting_type: SettingType,
    pub name: String,
    pub description: String,
    pub properties: HashMap<String, String>,
    pub evidence: Vec<Evidence>,
    pub notes: String,
    pub updated_at: String,
}

/// Kinds of settings.
pub enum SettingType {
    Location,
    Organization,
    PowerSystem,
    Item,
    Rule,
    Other(String),
}

/// An event of the story.
pub struct Event {
    pub id: String,
    pub title: String,
    pub description: String,
    pub chapter_id: String,
    pub characters_involved: Vec<String>,
    pub importance: Importance,
    pub evidence: Vec<Evidence>,
    pub notes: String,
    pub updated_at: String,
}

/// How much an event matters.
pub enum Importance {
    Critical,
    Major,
    Minor,
}

/// An event placed on the timeline.
pub struct TimelineEvent {
    pub id: String,
    pub event_id: Option<String>,
    pub title: String,
    pub chapter_id: String,
    pub order: u32,
    pub time_marker: Option<String>,
    pub is_uncertain: bool,
}

// ---------------------------------------------------------------------------
// Chunks
// ---------------------------------------------------------------------------

/// Default embedding dimensions used throughout the app.
pub const DEFAULT_EMBEDDING_DIMENSIONS: u32 = 1024;

/// Identifier of a chunk.
#[derive(Debug, Clone, PartialEq, Eq, Hash)]
pub struct ChunkId(pub String);

impl ChunkId {
    /// A fresh random identifier.
    pub fn new() -> (res: Self)
        ensures
            res.0@.len() == 36,
    {
        ChunkId(new_uuid_string())
    }

    /// The identifier with the given text.
    pub fn from_string(s: String) -> (res: Self)
        ensures
            res.0@ == s@,
    {
        ChunkId(s)
    }

    /// The identifier's text, as displayed.
    pub fn to_string(&self) -> (res: String)
        ensures
            res@ == self.0@,
    {
        String::from_str(self.0.as_str())
    }
}

/// Kinds of chunks.
#[derive(Debug, Clone, Copy, PartialEq, Eq)]
pub enum ChunkType {
    Paragraph,
    EntityDescription,
    EventSummary,
    RelationshipNote,
}

pub open spec fn chunk_type_name(t: ChunkType) -> Seq<char> {
    match t {
        ChunkType::Paragraph => "paragraph"@,
        ChunkType::EntityDescription => "entity"@,
        ChunkType::EventSummary => "event"@,
        ChunkType::RelationshipNote => "relationship"@,
    }
}

pub open spec fn chunk_type_of(s: Seq<char>) -> Option<ChunkType> {
    if s == "paragraph"@ {
        Some(ChunkType::Paragraph)
    } else if s == "entity"@ {
        Some(ChunkType::EntityDescription)
    } else if s == "event"@ {
        Some(ChunkType::EventSummary)
    } else if s == "relationship"@ {
        Some(ChunkType::RelationshipNote)
    } else {
        None
    }
}

impl ChunkType {
    /// The chunk type's name.
    pub fn as_str(&self) -> (res: &'static str)
        ensures
            res@ == chunk_type_name(*self),
    {
        match self {
            ChunkType::Paragraph => "paragraph",
            ChunkType::EntityDescription => "entity",
            ChunkType::EventSummary => "event",
            ChunkType::RelationshipNote => "relationship",
        }
    }

    /// The chunk type with the given name.
    pub fn from_str(s: &str) -> (res: Option<Self>)
        ensures
            res == chunk_type_of(s@),
    {
        if str_eq(s, "paragraph") {
            Some(ChunkType::Paragraph)
        } else if str_eq(s, "entity") {
            Some(ChunkType::EntityDescription)
        } else if str_eq(s, "event") {
            Some(ChunkType::EventSummary)
        } else if str_eq(s, "relationship") {
            Some(ChunkType::RelationshipNote)
        } else {
            None
        }
    }
}

/// What a chunk mentions.
pub struct ChunkMetadata {
    pub entities_mentioned: Vec<String>,
    pub timestamp_marker: Option<String>,
}

impl Default for ChunkMetadata {
    fn default() -> (res: Self)
        ensures
            res.entities_mentioned@.len() == 0,
            res.timestamp_marker is None,
    {
        ChunkMetadata { entities_mentioned: Vec::new(), timestamp_marker: None }
    }
}

/// A piece of chapter text (or an entity description) that is embedded and searched.
pub struct Chunk {
    pub id: ChunkId,
    pub chapter_id: String,
    pub chunk_index: u32,
    pub chunk_type: ChunkType,
    pub content: String,
    pub char_start: u32,
    pub char_end: u32,
    pub metadata: ChunkMetadata,
    pub created_at: Timestamp,
    pub updated_at: Timestamp,
}

impl Chunk {
    /// A paragraph chunk of a chapter, with a fresh identifier and no entities.
    pub fn new_paragraph(
        chapter_id: String,
        chunk_index: u32,
        content: String,
        char_start: u32,
        char_end: u32,
    ) -> (res: Self)
        ensures
            res.id.0@.len() == 36,
            res.chapter_id@ == chapter_id@,
            res.chunk_index == chunk_index,
            res.chunk_type == ChunkType::Paragraph,
            res.content@ == content@,
            res.char_start == char_start,
            res.char_end == char_end,
            res.metadata.entities_mentioned@.len() == 0,
            res.metadata.timestamp_marker is None,
            res.created_at == res.updated_at,
    {
        let now = now();
        Chunk {
            id: ChunkId::new(),
            chapter_id,
            chunk_index,
            chunk_type: ChunkType::Paragraph,
            content,
            char_start,
            char_end,
            metadata: ChunkMetadata::default(),
            created_at: now,
            updated_at: now,
        }
    }

    /// An entity-description chunk that mentions the entity, with a fresh identifier.
    pub fn new_entity(chapter_id: String, entity_id: String, content: String) -> (res: Self)
        ensures
            res.id.0@.len() == 36,
            res.chapter_id@ == chapter_id@,
            res.chunk_index == 0,
            res.chunk_type == ChunkType::EntityDescription,
            res.content@ == content@,
            res.char_start == 0,
            res.char_end == 0,
            res.metadata.entities_mentioned@ == seq![entity_id],
            res.metadata.timestamp_marker is None,
            res.created_at == res.updated_at,
    {
        let now = now();
        let mut mentioned: Vec<String> = Vec::new();
        mentioned.push(entity_id);
        Chunk {
            id: ChunkId::new(),
            chapter_id,
            chunk_index: 0,
            chunk_type: ChunkType::EntityDescription,
            content,
            char_start: 0,
            char_end: 0,
            metadata: ChunkMetadata { entities_mentioned: mentioned, timestamp_marker: None },
            created_at: now,
            updated_at: now,
        }
    }

    /// The chunk with its mentioned entities set to `entity_ids`.
    pub fn with_entities(self, entity_ids: Vec<String>) -> (res: Self)
        ensures
            res.metadata.entities_mentioned@ == entity_ids@,
            res.metadata.timestamp_marker == self.metadata.timestamp_marker,
            res.id == self.id,
            res.chapter_id == self.chapter_id,
            res.chunk_index == self.chunk_index,
            res.chunk_type == self.chunk_type,
            res.content == self.content,
            res.char_start == self.char_start,
            res.char_end == self.char_end,
            res.created_at == self.created_at,
            res.updated_at == self.updated_at,
    {
        let mut c = self;
        c.metadata.entities_mentioned = entity_ids;
        c
    }
}

// ---------------------------------------------------------------------------
// Prompt cards
// ---------------------------------------------------------------------------

/// Position of a prompt card relative to the agent's system prompt.
#[derive(Debug, Clone, Copy, PartialEq, Eq)]
pub enum PromptCardPosition {
    /// Applied before the agent's system prompt
    Prefix,
    /// Applied after the agent's system prompt
    Suffix,
}

/// A global system prompt card that can be applied to all agents.
pub struct PromptCard {
    pub id: String,
    pub title: String,
    pub content: String,
    pub enabled: bool,
    pub position: PromptCardPosition,
    /// Order within the same position (lower = earlier)
    pub order: i32,
    pub updated_at: Option<String>,
}

impl PromptCard {
    /// A new enabled card at order 0.
    pub fn new(id: String, title: String, content: String, position: PromptCardPosition) -> (res:
        Self)
        ensures
            res.id == id,
            res.title == title,
            res.content == content,
            res.enabled,
            res.position == position,
            res.order == 0,
            res.updated_at is None,
    {
        PromptCard { id, title, content, enabled: true, position, order: 0, updated_at: None }
    }
}

// ---------------------------------------------------------------------------
// Providers
// ---------------------------------------------------------------------------

/// The wire format of a chat provider.
#[derive(Debug, Clone, Copy, PartialEq, Eq)]
pub enum ApiFormat {
    /// OpenAI-compatible chat completions API (also used by DeepSeek, etc.)
    OpenAI,
    /// Anthropic Messages API
    Anthropic,
    /// Local Ollama API
    Ollama,
    /// An older name of the OpenAI-compatible format; it maps to OpenAI
    ChatCompletions,
    /// An older name of the OpenAI-compatible format; it maps to OpenAI
    Responses,
}

pub open spec fn default_path_of(f: ApiFormat) -> Seq<char> {
    match f {
        ApiFormat::OpenAI | ApiFormat::ChatCompletions | ApiFormat::Responses => "/v1/chat/completions"@,
        ApiFormat::Anthropic => "/v1/messages"@,
        ApiFormat::Ollama => "/api/chat"@,
    }
}

pub open spec fn python_format_of(f: ApiFormat) -> Seq<char> {
    match f {
        ApiFormat::OpenAI | ApiFormat::ChatCompletions | ApiFormat::Responses => "openai"@,
        ApiFormat::Anthropic => "anthropic"@,
        ApiFormat::Ollama => "ollama"@,
    }
}

impl ApiFormat {
    /// The request path of the format's endpoint.
    pub fn default_path(&self) -> (res: &'static str)
        ensures
            res@ == default_path_of(*self),
    {
        match self {
            ApiFormat::OpenAI | ApiFormat::ChatCompletions | ApiFormat::Responses => "/v1/chat/completions",
            ApiFormat::Anthropic => "/v1/messages",
            ApiFormat::Ollama => "/api/chat",
        }
    }

    /// The format string expected by the Python providers.
    pub fn to_python_format(&self) -> (res: &'static str)
        ensures
            res@ == python_format_of(*self),
    {
        match self {
            ApiFormat::OpenAI | ApiFormat::ChatCompletions | ApiFormat::Responses => "openai",
            ApiFormat::Anthropic => "anthropic",
            ApiFormat::Ollama => "ollama",
        }
    }
}

/// A configured chat provider.
pub struct ProviderConfig {
    pub id: String,
    pub name: String,
    pub enabled: bool,
    pub base_url: String,
    pub api_format: ApiFormat,
    pub path_override: Option<String>,
    pub api_key_ref: String,
    pub default_model: String,
    pub available_models: Vec<String>,
    pub headers: HashMap<String, String>,
    pub timeout_ms: u64,
    pub max_retries: u32,
}

/// `s` without its trailing `'/'` characters.
pub open spec fn trim_trailing_slashes(s: Seq<char>) -> Seq<char>
    decreases s.len(),
{
    if s.len() > 0 && s.last() == '/' {
        trim_trailing_slashes(s.drop_last())
    } else {
        s
    }
}

/// The request URL of a provider: the base URL without trailing slashes, then the
/// path override or else the format's default path.
pub open spec fn provider_url(base_url: Seq<char>, path_override: Option<Seq<char>>, f: ApiFormat) -> Seq<
    char,
> {
    trim_trailing_slashes(base_url) + match path_override {
        Some(p) => p,
        None => default_path_of(f),
    }
}

pub open spec fn opt_string_view(o: Option<String>) -> Option<Seq<char>> {
    match o {
        Some(s) => Some(s@),
        None => None,
    }
}

impl ProviderConfig {
    /// The request URL of the provider.
    pub fn build_url(&self) -> (res: String)
        ensures
            res@ == provider_url(self.base_url@, opt_string_view(self.path_override), self.api_format),
    {
        let base = chars_of(self.base_url.as_str());
        let mut end = base.len();
        proof {
            assert(base@.take(end as int) == base@);
        }
        while end > 0 && base[end - 1] == '/'
            invariant
                end <= base@.len(),
                trim_trailing_slashes(base@) == trim_trailing_slashes(base@.take(end as int)),
            decreases end,
        {
            proof {
                assert(base@.take(end as int).drop_last() == base@.take(end - 1));
            }
            end = end - 1;
        }
        let mut url = crate::text::slice_to_vec(base.as_slice(), 0, end);
        proof {
            assert(base@.subrange(0, end as int) == base@.take(end as int));
        }
        let path: &str = match &self.path_override {
            Some(p) => p.as_str(),
            None => self.api_format.default_path(),
        };
        append_chars(&mut url, chars_of(path).as_slice());
        string_of(url.as_slice())
    }
}

// ---------------------------------------------------------------------------
// Agents
// ---------------------------------------------------------------------------

/// What kind of agent an agent is.
pub enum AgentKind {
    BuiltIn(BuiltInAgent),
    Custom,
}

/// The built-in analysis agents.
#[derive(Debug, Clone, Copy, PartialEq, Eq)]
pub enum BuiltInAgent {
    TechniqueAnalysis,
    CharacterExtraction,
    SettingExtraction,
    EventExtraction,
    StyleAnalysis,
    /// Deprecated agent kind
    TimelineExtraction,
}

/// The analysis tasks that can be bound to an agent.
#[derive(Debug, Clone, Copy, Hash, PartialEq, Eq, Structural)]
pub enum TaskType {
    TechniqueAnalysis,
    CharacterExtraction,
    SettingExtraction,
    EventExtraction,
    StyleAnalysis,
    /// Deprecated agent kind
    TimelineExtraction,
}

/// The task for a Python-side analysis type name; `timeline` is deliberately not mapped.
pub open spec fn task_type_of(s: Seq<char>) -> Option<TaskType> {
    if s == "technique"@ {
        Some(TaskType::TechniqueAnalysis)
    } else if s == "character"@ {
        Some(TaskType::CharacterExtraction)
    } else if s == "setting"@ {
        Some(TaskType::SettingExtraction)
    } else if s == "event"@ {
        Some(TaskType::EventExtraction)
    } else if s == "style"@ {
        Some(TaskType::StyleAnalysis)
    } else {
        None
    }
}

impl TaskType {
    /// Converts a Python-side analysis type (e.g. `"technique"`) into a task.
    pub fn from_analysis_type(s: &str) -> (res: Option<Self>)
        ensures
            res == task_type_of(s@),
    {
        if str_eq(s, "technique") {
            Some(TaskType::TechniqueAnalysis)
        } else if str_eq(s, "character") {
            Some(TaskType::CharacterExtraction)
        } else if str_eq(s, "setting") {
            Some(TaskType::SettingExtraction)
        } else if str_eq(s, "event") {
            Some(TaskType::EventExtraction)
        } else if str_eq(s, "style") {
            Some(TaskType::StyleAnalysis)
        } else {
            None
        }
    }
}

/// Which agent each task is bound to.
pub struct TaskBindings {
    pub bindings: HashMap<TaskType, String>,
}

/// Purpose of an embedding request, for API logging.
#[derive(Debug, Clone, Copy, PartialEq, Eq)]
pub enum EmbeddingPurpose {
    /// Storing chapter content for later retrieval
    ChapterStorage,
    /// RAG query for context building
    RagQuery,
    /// Entity description embedding
    EntityDescription,
    /// Other/unspecified
    Other,
}

pub open spec fn embedding_purpose_name(p: EmbeddingPurpose) -> Seq<char> {
    match p {
        EmbeddingPurpose::ChapterStorage => "chapter_storage"@,
        EmbeddingPurpose::RagQuery => "rag_query"@,
        EmbeddingPurpose::EntityDescription => "entity_description"@,
        EmbeddingPurpose::Other => "other"@,
    }
}

impl EmbeddingPurpose {
    /// The purpose's name.
    pub fn as_str(&self) -> (res: &'static str)
        ensures
            res@ == embedding_purpose_name(*self),
    {
        match self {
            EmbeddingPurpose::ChapterStorage => "chapter_storage",
            EmbeddingPurpose::RagQuery => "rag_query",
            EmbeddingPurpose::EntityDescription => "entity_description",
            EmbeddingPurpose::Other => "other",
        }
    }
}

} // verus!
