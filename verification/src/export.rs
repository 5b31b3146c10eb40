//! Exports: options, technique labels, and the style prompts written from collected
//! techniques.
use vstd::prelude::*;
use crate::analysis::TechniqueCardInfo;
use crate::text::{append_chars, chars_of, str_eq, string_of};

verus! {

/// The file formats of exports.
pub enum ExportFormat {
    Markdown,
    Json,
}

/// What a story-bible export holds.
pub struct ExportOptions {
    pub format: ExportFormat,
    pub include_characters: bool,
    pub include_settings: bool,
    pub include_events: bool,
    pub include_techniques: bool,
}

impl Default for ExportOptions {
    fn default() -> (res: Self)
        ensures
            res.format is Markdown,
            res.include_characters,
            res.include_settings,
            res.include_events,
            res.include_techniques,
    {
        ExportOptions {
            format: ExportFormat::Markdown,
            include_characters: true,
            include_settings: true,
            include_events: true,
            include_techniques: true,
        }
    }
}

/// The outcome of an export: the file written, or the content itself.
pub struct ExportResult {
    pub success: bool,
    pub file_path: Option<String>,
    pub content: Option<String>,
    pub error: Option<String>,
}

/// Which model interface a style prompt is written for.
#[derive(Debug)]
pub enum StylePromptTemplate {
    /// A generic system prompt
    Generic,
    /// The OpenAI chat interface
    OpenAI,
    /// The Anthropic messages interface
    Claude,
    /// Local inference frameworks
    LocalLlm,
}

/// Options for style prompt exports.
pub struct StyleExportOptions {
    pub format: ExportFormat,
    pub include_narrative: bool,
    pub include_dialogue: bool,
    pub include_description: bool,
    pub include_pacing: bool,
    pub include_tension: bool,
    pub include_atmosphere: bool,
    pub example_count: usize,
    pub prompt_template: StylePromptTemplate,
}

impl Default for StyleExportOptions {
    fn default() -> (res: Self)
        ensures
            res.format is Markdown,
            res.include_narrative && res.include_dialogue && res.include_description
                && res.include_pacing && res.include_tension && res.include_atmosphere,
            res.example_count == 3,
            res.prompt_template is Generic,
    {
        StyleExportOptions {
            format: ExportFormat::Markdown,
            include_narrative: true,
            include_dialogue: true,
            include_description: true,
            include_pacing: true,
            include_tension: true,
            include_atmosphere: true,
            example_count: 3,
            prompt_template: StylePromptTemplate::Generic,
        }
    }
}

/// Options for style profile exports.
pub struct StyleProfileExportOptions {
    pub format: ExportFormat,
    pub example_count: usize,
    pub prompt_template: StylePromptTemplate,
}

impl Default for StyleProfileExportOptions {
    fn default() -> (res: Self)
        ensures
            res.format is Markdown,
            res.example_count == 3,
            res.prompt_template is Generic,
    {
        StyleProfileExportOptions {
            format: ExportFormat::Markdown,
            example_count: 3,
            prompt_template: StylePromptTemplate::Generic,
        }
    }
}

// ---------------------------------------------------------------------------
// Technique labels
// ---------------------------------------------------------------------------

/// The label of a technique type; an unknown type is its own label.
pub open spec fn technique_type_label(t: Seq<char>) -> Seq<char> {
    if t == "narrative"@ {
        "叙事技法"@
    } else if t == "dialogue"@ {
        "对话技法"@
    } else if t == "description"@ {
        "描写技法"@
    } else if t == "structure"@ {
        "结构技法"@
    } else if t == "pacing"@ {
        "节奏技法"@
    } else if t == "tension"@ {
        "张力技法"@
    } else if t == "foreshadowing"@ {
        "伏笔技法"@
    } else if t == "character"@ {
        "人物刻画"@
    } else if t == "atmosphere"@ {
        "氛围营造"@
    } else if t == "scene"@ {
        "场景技法"@
    } else if t == "suspense"@ {
        "悬念技法"@
    } else if t == "theme"@ {
        "主题技法"@
    } else if t == "voice"@ {
        "叙述声音"@
    } else if t == "other"@ {
        "其他技法"@
    } else {
        t
    }
}

/// The label of a technique type.
pub fn get_technique_type_label(tech_type: &str) -> (res: &str)
    ensures
        res@ == technique_type_label(tech_type@),
{
    if str_eq(tech_type, "narrative") {
        "叙事技法"
    } else if str_eq(tech_type, "dialogue") {
        "对话技法"
    } else if str_eq(tech_type, "description") {
        "描写技法"
    } else if str_eq(tech_type, "structure") {
        "结构技法"
    } else if str_eq(tech_type, "pacing") {
        "节奏技法"
    } else if str_eq(tech_type, "tension") {
        "张力技法"
    } else if str_eq(tech_type, "foreshadowing") {
        "伏笔技法"
    } else if str_eq(tech_type, "character") {
        "人物刻画"
    } else if str_eq(tech_type, "atmosphere") {
        "氛围营造"
    } else if str_eq(tech_type, "scene") {
        "场景技法"
    } else if str_eq(tech_type, "suspense") {
        "悬念技法"
    } else if str_eq(tech_type, "theme") {
        "主题技法"
    } else if str_eq(tech_type, "voice") {
        "叙述声音"
    } else if str_eq(tech_type, "other") {
        "其他技法"
    } else {
        tech_type
    }
}

// ---------------------------------------------------------------------------
// Style prompts from collected techniques
// ---------------------------------------------------------------------------

/// A collected technique as it enters a style prompt.
pub struct TechniqueStyle {
    pub title: String,
    pub description: String,
    pub mechanism: String,
    pub examples: Vec<String>,
}

/// The collected techniques of one category.
pub struct StyleInfo {
    pub category: String,
    pub techniques: Vec<TechniqueStyle>,
}

/// The prompt lines of one technique: title and description, then its mechanism
/// where it has one.
pub open spec fn technique_prompt_lines(t: TechniqueStyle) -> Seq<char> {
    "• "@ + t.title@ + ": "@ + t.description@ + "\n"@ + if t.mechanism@.len() > 0 {
        "  实现方式: "@ + t.mechanism@ + "\n"@
    } else {
        Seq::<char>::empty()
    }
}

/// The prompt lines of the techniques, in order.
pub open spec fn techniques_prompt(ts: Seq<TechniqueStyle>) -> Seq<char>
    decreases ts.len(),
{
    if ts.len() == 0 {
        Seq::<char>::empty()
    } else {
        techniques_prompt(ts.drop_last()) + technique_prompt_lines(ts.last())
    }
}

/// The prompt section of each category: its label in brackets, its techniques, and
/// a blank line.
pub open spec fn styles_prompt(styles: Seq<StyleInfo>) -> Seq<char>
    decreases styles.len(),
{
    if styles.len() == 0 {
        Seq::<char>::empty()
    } else {
        let s = styles.last();
        styles_prompt(styles.drop_last()) + "【"@ + technique_type_label(s.category@) + "】\n"@
            + techniques_prompt(s.techniques@) + "\n"@
    }
}

/// The closing requirements of a style prompt.
pub open spec fn prompt_requirements() -> Seq<char> {
    "创作要求：\n1. 保持原作的叙述节奏和语言风格\n2. 运用上述技法自然地融入创作中\n3. 保持人物对话的特色和氛围营造手法\n4. 在描写和叙事中体现原作的美学追求\n"@
}

/// The system prompt for imitating an author: the role, the book, each category's
/// techniques, and the requirements.
pub open spec fn system_prompt(styles: Seq<StyleInfo>, book_title: Seq<char>, author: Seq<char>) -> Seq<
    char,
> {
    "你是一位精通模仿"@ + author + "写作风格的作家助手。\n\n"@ + "以下是从《"@ + book_title
        + "》中提取的写作技法和风格特点，请在创作时严格遵循：\n\n"@ + styles_prompt(styles)
        + prompt_requirements()
}

fn nonempty(s: &str) -> (res: bool)
    ensures
        res == (s@.len() > 0),
{
    chars_of(s).len() > 0
}

pub(crate) fn push_str(v: &mut Vec<char>, s: &str)
    ensures
        final(v)@ == old(v)@ + s@,
{
    let c = chars_of(s);
    append_chars(v, c.as_slice());
}

fn push_techniques_prompt(out: &mut Vec<char>, ts: &Vec<TechniqueStyle>)
    ensures
        final(out)@ == old(out)@ + techniques_prompt(ts@),
{
    let ghost start = out@;
    let mut i: usize = 0;
    while i < ts.len()
        invariant
            i <= ts@.len(),
            out@ == start + techniques_prompt(ts@.take(i as int)),
        decreases ts.len() - i,
    {
        proof {
            assert(ts@.take(i + 1).drop_last() == ts@.take(i as int));
        }
        let t = &ts[i];
        let ghost before = out@;
        push_str(out, "• ");
        push_str(out, t.title.as_str());
        push_str(out, ": ");
        push_str(out, t.description.as_str());
        push_str(out, "\n");
        if nonempty(t.mechanism.as_str()) {
            push_str(out, "  实现方式: ");
            push_str(out, t.mechanism.as_str());
            push_str(out, "\n");
        }
        proof {
            assert(out@ =~= before + technique_prompt_lines(ts@[i as int]));
            assert(start + techniques_prompt(ts@.take(i + 1)) =~= start + techniques_prompt(
                ts@.take(i as int),
            ) + technique_prompt_lines(ts@[i as int]));
        }
        i = i + 1;
    }
    proof {
        assert(ts@.take(i as int) == ts@);
    }
}

fn push_styles_prompt(out: &mut Vec<char>, styles: &[StyleInfo])
    ensures
        final(out)@ == old(out)@ + styles_prompt(styles@),
{
    let ghost start = out@;
    let mut i: usize = 0;
    while i < styles.len()
        invariant
            i <= styles@.len(),
            out@ == start + styles_prompt(styles@.take(i as int)),
        decreases styles.len() - i,
    {
        proof {
            assert(styles@.take(i + 1).drop_last() == styles@.take(i as int));
        }
        let s = &styles[i];
        let ghost before = out@;
        push_str(out, "【");
        push_str(out, get_technique_type_label(s.category.as_str()));
        push_str(out, "】\n");
        push_techniques_prompt(out, &s.techniques);
        push_str(out, "\n");
        proof {
            let sp = styles@[i as int];
            assert(out@ =~= before + ("【"@ + technique_type_label(sp.category@) + "】\n"@
                + techniques_prompt(sp.techniques@) + "\n"@));
            assert(start + styles_prompt(styles@.take(i + 1)) =~= start + styles_prompt(
                styles@.take(i as int),
            ) + ("【"@ + technique_type_label(sp.category@) + "】\n"@ + techniques_prompt(
                sp.techniques@,
            ) + "\n"@));
        }
        i = i + 1;
    }
    proof {
        assert(styles@.take(i as int) == styles@);
    }
}

/// The system prompt for imitating an author from the collected techniques.
pub fn generate_system_prompt(styles: &[StyleInfo], book_title: &str, author: &str) -> (res: String)
    ensures
        res@ == system_prompt(styles@, book_title@, author@),
{
    let mut out: Vec<char> = Vec::new();
    push_str(&mut out, "你是一位精通模仿");
    push_str(&mut out, author);
    push_str(&mut out, "写作风格的作家助手。\n\n");
    push_str(&mut out, "以下是从《");
    push_str(&mut out, book_title);
    push_str(&mut out, "》中提取的写作技法和风格特点，请在创作时严格遵循：\n\n");
    push_styles_prompt(&mut out, styles);
    push_str(
        &mut out,
        "创作要求：\n1. 保持原作的叙述节奏和语言风格\n2. 运用上述技法自然地融入创作中\n3. 保持人物对话的特色和氛围营造手法\n4. 在描写和叙事中体现原作的美学追求\n",
    );
    proof {
        assert(out@ =~= system_prompt(styles@, book_title@, author@));
    }
    string_of(&out)
}

// ---------------------------------------------------------------------------
// Markdown documents
// ---------------------------------------------------------------------------

/// The API example for the OpenAI chat interface.
pub open spec fn openai_example() -> Seq<char> {
    "## API 调用示例\n\n```python\nfrom openai import OpenAI\n\nclient = OpenAI()\n\nresponse = client.chat.completions.create(\n    model=\"gpt-4\",\n    messages=[\n        {\"role\": \"system\", \"content\": SYSTEM_PROMPT},\n        {\"role\": \"user\", \"content\": \"请以这种风格续写...\"}\n    ]\n)\n```\n\n"@
}

/// The API example for the Anthropic messages interface.
pub open spec fn claude_example() -> Seq<char> {
    "## API 调用示例\n\n```python\nimport anthropic\n\nclient = anthropic.Anthropic()\n\nmessage = client.messages.create(\n    model=MODEL_NAME,\n    max_tokens=4096,\n    system=SYSTEM_PROMPT,\n    messages=[\n        {\"role\": \"user\", \"content\": \"请以这种风格续写...\"}\n    ]\n)\n```\n\n"@
}

/// The example for local inference.
pub open spec fn local_example() -> Seq<char> {
    "## Ollama 示例\n\n```bash\nollama run llama3 --system \"$(cat system_prompt.txt)\"\n```\n\n"@
}

/// The opening of a prompt document for a template: a heading naming the document
/// (`kind`: 技法 or 风格) and the source, then the system prompt in a code block with
/// the template's instructions and example.
pub open spec fn template_section(
    template: StylePromptTemplate,
    kind: Seq<char>,
    generic_heading: Seq<char>,
    book_title: Seq<char>,
    author: Seq<char>,
    prompt: Seq<char>,
) -> Seq<char> {
    template_heading(template, kind, generic_heading) + "来源: 《"@ + book_title + "》 - "@ + author
        + "\n\n"@ + template_body(template, prompt)
}

/// The heading of a prompt document for a template.
pub open spec fn template_heading(
    template: StylePromptTemplate,
    kind: Seq<char>,
    generic_heading: Seq<char>,
) -> Seq<char> {
    match template {
        StylePromptTemplate::Generic => "# "@ + generic_heading + " Prompt\n\n"@,
        StylePromptTemplate::OpenAI => "# OpenAI API "@ + kind + "配置\n\n"@,
        StylePromptTemplate::Claude => "# Anthropic API "@ + kind + "配置\n\n"@,
        StylePromptTemplate::LocalLlm => "# 本地 LLM "@ + kind + "配置\n\n"@,
    }
}

/// The system prompt in a code block, with the template's instructions and example.
pub open spec fn template_body(template: StylePromptTemplate, prompt: Seq<char>) -> Seq<char> {
    match template {
        StylePromptTemplate::Generic => "---\n\n## System Prompt\n\n```\n"@ + prompt + "\n```\n\n"@,
        StylePromptTemplate::OpenAI => "---\n\n## System Message\n\n将以下内容作为 `system` 角色的 message：\n\n```\n"@
            + prompt + "\n```\n\n"@ + openai_example(),
        StylePromptTemplate::Claude => "---\n\n## System Prompt\n\n将以下内容作为 `system` 参数：\n\n```\n"@
            + prompt + "\n```\n\n"@ + claude_example(),
        StylePromptTemplate::LocalLlm => "---\n\n## System Prompt\n\n适用于 llama.cpp, Ollama, vLLM 等本地推理框架：\n\n```\n"@
            + prompt + "\n```\n\n"@ + local_example(),
    }
}

/// The examples of a technique as quotes.
pub open spec fn quoted_examples(es: Seq<String>) -> Seq<char>
    decreases es.len(),
{
    if es.len() == 0 {
        Seq::<char>::empty()
    } else {
        quoted_examples(es.drop_last()) + "> "@ + es.last()@ + "\n\n"@
    }
}

/// The detailed section of one technique: title, description, mechanism where it has
/// one, and its examples where it has any.
pub open spec fn technique_details(t: TechniqueStyle) -> Seq<char> {
    "#### "@ + t.title@ + "\n\n"@ + t.description@ + "\n\n"@ + (if t.mechanism@.len() > 0 {
        "**实现方式**: "@ + t.mechanism@ + "\n\n"@
    } else {
        Seq::<char>::empty()
    }) + if t.examples@.len() > 0 {
        "**示例段落**:\n\n"@ + quoted_examples(t.examples@)
    } else {
        Seq::<char>::empty()
    }
}

/// The detailed sections of the techniques, in order.
pub open spec fn techniques_details(ts: Seq<TechniqueStyle>) -> Seq<char>
    decreases ts.len(),
{
    if ts.len() == 0 {
        Seq::<char>::empty()
    } else {
        techniques_details(ts.drop_last()) + technique_details(ts.last())
    }
}

/// The detailed sections of each category under its label.
pub open spec fn styles_details(styles: Seq<StyleInfo>) -> Seq<char>
    decreases styles.len(),
{
    if styles.len() == 0 {
        Seq::<char>::empty()
    } else {
        let s = styles.last();
        styles_details(styles.drop_last()) + "### "@ + technique_type_label(s.category@) + "\n\n"@
            + techniques_details(s.techniques@)
    }
}

/// A prompt document: the template section, then the detailed analysis under the
/// heading `details_heading`.
pub open spec fn prompt_document(
    styles: Seq<StyleInfo>,
    book_title: Seq<char>,
    author: Seq<char>,
    template: StylePromptTemplate,
    kind: Seq<char>,
    generic_heading: Seq<char>,
    details_heading: Seq<char>,
) -> Seq<char> {
    template_section(
        template,
        kind,
        generic_heading,
        book_title,
        author,
        system_prompt(styles, book_title, author),
    ) + "---\n\n## "@ + details_heading + "\n\n"@ + styles_details(styles)
}

pub(crate) fn push_examples(out: &mut Vec<char>, es: &Vec<String>)
    ensures
        final(out)@ == old(out)@ + quoted_examples(es@),
{
    let ghost start = out@;
    let mut i: usize = 0;
    while i < es.len()
        invariant
            i <= es@.len(),
            out@ == start + quoted_examples(es@.take(i as int)),
        decreases es.len() - i,
    {
        proof {
            assert(es@.take(i + 1).drop_last() == es@.take(i as int));
        }
        let ghost before = out@;
        push_str(out, "> ");
        push_str(out, es[i].as_str());
        push_str(out, "\n\n");
        proof {
            assert(out@ =~= before + ("> "@ + es@[i as int]@ + "\n\n"@));
            assert(start + quoted_examples(es@.take(i + 1)) =~= start + quoted_examples(
                es@.take(i as int),
            ) + ("> "@ + es@[i as int]@ + "\n\n"@));
        }
        i = i + 1;
    }
    proof {
        assert(es@.take(i as int) == es@);
    }
}

fn push_technique_details(out: &mut Vec<char>, ts: &Vec<TechniqueStyle>)
    ensures
        final(out)@ == old(out)@ + techniques_details(ts@),
{
    let ghost start = out@;
    let mut i: usize = 0;
    while i < ts.len()
        invariant
            i <= ts@.len(),
            out@ == start + techniques_details(ts@.take(i as int)),
        decreases ts.len() - i,
    {
        proof {
            assert(ts@.take(i + 1).drop_last() == ts@.take(i as int));
        }
        let t = &ts[i];
        let ghost before = out@;
        push_str(out, "#### ");
        push_str(out, t.title.as_str());
        push_str(out, "\n\n");
        push_str(out, t.description.as_str());
        push_str(out, "\n\n");
        let ghost mid = out@;
        if nonempty(t.mechanism.as_str()) {
            push_str(out, "**实现方式**: ");
            push_str(out, t.mechanism.as_str());
            push_str(out, "\n\n");
        }
        let ghost mid2 = out@;
        if t.examples.len() > 0 {
            push_str(out, "**示例段落**:\n\n");
            push_examples(out, &t.examples);
        }
        proof {
            let tp = ts@[i as int];
            assert(mid == before + ("#### "@ + tp.title@ + "\n\n"@ + tp.description@ + "\n\n"@));
            assert(out@ =~= before + technique_details(tp));
            assert(start + techniques_details(ts@.take(i + 1)) =~= start + techniques_details(
                ts@.take(i as int),
            ) + technique_details(tp));
        }
        i = i + 1;
    }
    proof {
        assert(ts@.take(i as int) == ts@);
    }
}

fn push_styles_details(out: &mut Vec<char>, styles: &[StyleInfo])
    ensures
        final(out)@ == old(out)@ + styles_details(styles@),
{
    let ghost start = out@;
    let mut i: usize = 0;
    while i < styles.len()
        invariant
            i <= styles@.len(),
            out@ == start + styles_details(styles@.take(i as int)),
        decreases styles.len() - i,
    {
        proof {
            assert(styles@.take(i + 1).drop_last() == styles@.take(i as int));
        }
        let s = &styles[i];
        let ghost before = out@;
        push_str(out, "### ");
        push_str(out, get_technique_type_label(s.category.as_str()));
        push_str(out, "\n\n");
        push_technique_details(out, &s.techniques);
        proof {
            let sp = styles@[i as int];
            assert(out@ =~= before + ("### "@ + technique_type_label(sp.category@) + "\n\n"@
                + techniques_details(sp.techniques@)));
            assert(start + styles_details(styles@.take(i + 1)) =~= start + styles_details(
                styles@.take(i as int),
            ) + ("### "@ + technique_type_label(sp.category@) + "\n\n"@ + techniques_details(
                sp.techniques@,
            )));
        }
        i = i + 1;
    }
    proof {
        assert(styles@.take(i as int) == styles@);
    }
}

pub(crate) fn push_template_heading(
    out: &mut Vec<char>,
    template: &StylePromptTemplate,
    kind: &str,
    generic_heading: &str,
)
    ensures
        final(out)@ == old(out)@ + template_heading(*template, kind@, generic_heading@),
{
    let ghost start = out@;
    match template {
        StylePromptTemplate::Generic => {
            push_str(out, "# ");
            push_str(out, generic_heading);
            push_str(out, " Prompt\n\n");
        },
        StylePromptTemplate::OpenAI => {
            push_str(out, "# OpenAI API ");
            push_str(out, kind);
            push_str(out, "配置\n\n");
        },
        StylePromptTemplate::Claude => {
            push_str(out, "# Anthropic API ");
            push_str(out, kind);
            push_str(out, "配置\n\n");
        },
        StylePromptTemplate::LocalLlm => {
            push_str(out, "# 本地 LLM ");
            push_str(out, kind);
            push_str(out, "配置\n\n");
        },
    }
    assert(out@ =~= start + template_heading(*template, kind@, generic_heading@));
}

fn push_template_body(out: &mut Vec<char>, template: &StylePromptTemplate, prompt: &str)
    ensures
        final(out)@ == old(out)@ + template_body(*template, prompt@),
{
    let ghost start = out@;
    match template {
        StylePromptTemplate::Generic => {
            push_str(out, "---\n\n## System Prompt\n\n```\n");
            push_str(out, prompt);
            push_str(out, "\n```\n\n");
        },
        StylePromptTemplate::OpenAI => {
            push_str(
                out,
                "---\n\n## System Message\n\n将以下内容作为 `system` 角色的 message：\n\n```\n",
            );
            push_str(out, prompt);
            push_str(out, "\n```\n\n");
            push_str(
                out,
                "## API 调用示例\n\n```python\nfrom openai import OpenAI\n\nclient = OpenAI()\n\nresponse = client.chat.completions.create(\n    model=\"gpt-4\",\n    messages=[\n        {\"role\": \"system\", \"content\": SYSTEM_PROMPT},\n        {\"role\": \"user\", \"content\": \"请以这种风格续写...\"}\n    ]\n)\n```\n\n",
            );
        },
        StylePromptTemplate::Claude => {
            push_str(out, "---\n\n## System Prompt\n\n将以下内容作为 `system` 参数：\n\n```\n");
            push_str(out, prompt);
            push_str(out, "\n```\n\n");
            push_str(
                out,
                "## API 调用示例\n\n```python\nimport anthropic\n\nclient = anthropic.Anthropic()\n\nmessage = client.messages.create(\n    model=MODEL_NAME,\n    max_tokens=4096,\n    system=SYSTEM_PROMPT,\n    messages=[\n        {\"role\": \"user\", \"content\": \"请以这种风格续写...\"}\n    ]\n)\n```\n\n",
            );
        },
        StylePromptTemplate::LocalLlm => {
            push_str(
                out,
                "---\n\n## System Prompt\n\n适用于 llama.cpp, Ollama, vLLM 等本地推理框架：\n\n```\n",
            );
            push_str(out, prompt);
            push_str(out, "\n```\n\n");
            push_str(
                out,
                "## Ollama 示例\n\n```bash\nollama run llama3 --system \"$(cat system_prompt.txt)\"\n```\n\n",
            );
        },
    }
    assert(out@ =~= start + template_body(*template, prompt@));
}

pub(crate) fn push_template_section(
    out: &mut Vec<char>,
    template: &StylePromptTemplate,
    kind: &str,
    generic_heading: &str,
    book_title: &str,
    author: &str,
    prompt: &str,
)
    ensures
        final(out)@ == old(out)@ + template_section(
            *template,
            kind@,
            generic_heading@,
            book_title@,
            author@,
            prompt@,
        ),
{
    let ghost start = out@;
    push_template_heading(out, template, kind, generic_heading);
    push_str(out, "来源: 《");
    push_str(out, book_title);
    push_str(out, "》 - ");
    push_str(out, author);
    push_str(out, "\n\n");
    push_template_body(out, template, prompt);
    assert(out@ =~= start + template_section(
        *template,
        kind@,
        generic_heading@,
        book_title@,
        author@,
        prompt@,
    ));
}

fn write_prompt_document(
    styles: &[StyleInfo],
    book_title: &str,
    author: &str,
    template: &StylePromptTemplate,
    kind: &str,
    generic_heading: &str,
    details_heading: &str,
) -> (res: String)
    ensures
        res@ == prompt_document(
            styles@,
            book_title@,
            author@,
            *template,
            kind@,
            generic_heading@,
            details_heading@,
        ),
{
    let prompt = generate_system_prompt(styles, book_title, author);
    let mut out: Vec<char> = Vec::new();
    push_template_section(
        &mut out,
        template,
        kind,
        generic_heading,
        book_title,
        author,
        prompt.as_str(),
    );
    push_str(&mut out, "---\n\n## ");
    push_str(&mut out, details_heading);
    push_str(&mut out, "\n\n");
    push_styles_details(&mut out, styles);
    proof {
        assert(out@ =~= prompt_document(
            styles@,
            book_title@,
            author@,
            *template,
            kind@,
            generic_heading@,
            details_heading@,
        ));
    }
    string_of(&out)
}

/// The technique prompt document in Markdown.
pub fn generate_technique_markdown(
    styles: &[StyleInfo],
    book_title: &str,
    author: &str,
    options: &StyleExportOptions,
) -> (res: Result<String, String>)
    ensures
        res matches Ok(md) && md@ == prompt_document(
            styles@,
            book_title@,
            author@,
            options.prompt_template,
            "技法"@,
            "技法风格模仿"@,
            "技法分析详情"@,
        ),
{
    Ok(
        write_prompt_document(
            styles,
            book_title,
            author,
            &options.prompt_template,
            "技法",
            "技法风格模仿",
            "技法分析详情",
        ),
    )
}

/// The style prompt document in Markdown, written from the collected techniques
/// (used where the book has no style profile).
pub fn generate_style_markdown(
    styles: &[StyleInfo],
    book_title: &str,
    author: &str,
    options: &StyleExportOptions,
) -> (res: Result<String, String>)
    ensures
        res matches Ok(md) && md@ == prompt_document(
            styles@,
            book_title@,
            author@,
            options.prompt_template,
            "风格"@,
            "作者风格模仿"@,
            "风格分析详情"@,
        ),
{
    Ok(
        write_prompt_document(
            styles,
            book_title,
            author,
            &options.prompt_template,
            "风格",
            "作者风格模仿",
            "风格分析详情",
        ),
    )
}

// ---------------------------------------------------------------------------
// Collecting techniques by category
// ---------------------------------------------------------------------------

/// Whether techniques of category `c` enter a style prompt: the categories the
/// options select, and always `character`, `scene` and `voice`.
pub open spec fn included_category(o: StyleExportOptions, c: Seq<char>) -> bool {
    ||| o.include_narrative && c == "narrative"@
    ||| o.include_dialogue && c == "dialogue"@
    ||| o.include_description && c == "description"@
    ||| o.include_pacing && c == "pacing"@
    ||| o.include_tension && c == "tension"@
    ||| o.include_atmosphere && c == "atmosphere"@
    ||| c == "character"@
    ||| c == "scene"@
    ||| c == "voice"@
}

/// The included categories of the techniques, each once, in the order first seen.
pub open spec fn style_categories(ts: Seq<TechniqueCardInfo>, o: StyleExportOptions) -> Seq<Seq<char>>
    decreases ts.len(),
{
    if ts.len() == 0 {
        Seq::<Seq<char>>::empty()
    } else {
        let cs = style_categories(ts.drop_last(), o);
        let c = ts.last().technique_type@;
        if included_category(o, c) && !cs.contains(c) {
            cs.push(c)
        } else {
            cs
        }
    }
}

/// A technique as it enters a style prompt: title, description, mechanism and its
/// first `n` pieces of evidence as examples.
pub open spec fn style_of(t: TechniqueCardInfo, n: nat) -> (Seq<char>, Seq<char>, Seq<char>, Seq<Seq<char>>) {
    let ev = texts(t.evidence@);
    (t.title@, t.description@, t.mechanism@, if ev.len() <= n { ev } else { ev.take(n as int) })
}

/// The techniques of category `c`, in order, as they enter a style prompt.
pub open spec fn category_members(ts: Seq<TechniqueCardInfo>, c: Seq<char>, n: nat) -> Seq<(Seq<char>, Seq<char>, Seq<char>, Seq<Seq<char>>)>
    decreases ts.len(),
{
    if ts.len() == 0 {
        Seq::empty()
    } else {
        let ms = category_members(ts.drop_last(), c, n);
        if ts.last().technique_type@ == c {
            ms.push(style_of(ts.last(), n))
        } else {
            ms
        }
    }
}

pub open spec fn texts(v: Seq<String>) -> Seq<Seq<char>> {
    v.map_values(|s: String| s@)
}

pub open spec fn style_view(t: TechniqueStyle) -> (Seq<char>, Seq<char>, Seq<char>, Seq<Seq<char>>) {
    (t.title@, t.description@, t.mechanism@, texts(t.examples@))
}

pub open spec fn styles_view(ts: Seq<TechniqueStyle>) -> Seq<(Seq<char>, Seq<char>, Seq<char>, Seq<Seq<char>>)> {
    ts.map_values(|t: TechniqueStyle| style_view(t))
}

fn copy_text_list(v: &Vec<String>, n: usize) -> (res: Vec<String>)
    ensures
        texts(res@) == if texts(v@).len() <= n { texts(v@) } else { texts(v@).take(n as int) },
{
    let mut res: Vec<String> = Vec::new();
    let mut i: usize = 0;
    while i < v.len() && i < n
        invariant
            i <= v@.len(),
            i <= n,
            texts(res@) == texts(v@).take(i as int),
        decreases v.len() - i,
    {
        let ghost before = res@;
        let x = String::from_str(v[i].as_str());
        res.push(x);
        proof {
            assert(texts(res@) =~= texts(before).push(v@[i as int]@));
            assert(texts(v@).take(i + 1) =~= texts(v@).take(i as int).push(v@[i as int]@));
        }
        i = i + 1;
    }
    proof {
        if texts(v@).len() <= n {
            assert(texts(v@).take(i as int) == texts(v@));
        }
    }
    res
}

fn included(o: &StyleExportOptions, c: &str) -> (res: bool)
    ensures
        res == included_category(*o, c@),
{
    (o.include_narrative && str_eq(c, "narrative")) || (o.include_dialogue && str_eq(c, "dialogue"))
        || (o.include_description && str_eq(c, "description")) || (o.include_pacing && str_eq(
        c,
        "pacing",
    )) || (o.include_tension && str_eq(c, "tension")) || (o.include_atmosphere && str_eq(
        c,
        "atmosphere",
    )) || str_eq(c, "character") || str_eq(c, "scene") || str_eq(c, "voice")
}

/// The collected techniques grouped by category for a style prompt: one group per
/// included category, in the order the categories first occur, each holding its
/// techniques in order with at most `example_count` examples.
pub fn collect_style_info(techniques: &[TechniqueCardInfo], options: &StyleExportOptions) -> (res:
    Vec<StyleInfo>)
    ensures
        res@.len() == style_categories(techniques@, *options).len(),
        forall|i: int|
            0 <= i < res@.len() ==> (#[trigger] res@[i]).category@ == style_categories(
                techniques@,
                *options,
            )[i] && styles_view(res@[i].techniques@) == category_members(
                techniques@,
                style_categories(techniques@, *options)[i],
                options.example_count as nat,
            ),
{
    let ghost cats = style_categories(techniques@, *options);
    let mut names: Vec<String> = Vec::new();
    let mut i: usize = 0;
    while i < techniques.len()
        invariant
            i <= techniques@.len(),
            texts(names@) == style_categories(techniques@.take(i as int), *options),
        decreases techniques.len() - i,
    {
        proof {
            assert(techniques@.take(i + 1).drop_last() == techniques@.take(i as int));
        }
        let c = techniques[i].technique_type.as_str();
        if included(options, c) {
            let mut seen = false;
            let mut j: usize = 0;
            while j < names.len()
                invariant
                    j <= names@.len(),
                    seen <==> exists|k: int| 0 <= k < j && #[trigger] names@[k]@ == c@,
                decreases names.len() - j,
            {
                if str_eq(names[j].as_str(), c) {
                    seen = true;
                }
                j = j + 1;
            }
            proof {
                let ns = texts(names@);
                if seen {
                    let k = choose|k: int| 0 <= k < j && #[trigger] names@[k]@ == c@;
                    assert(ns[k] == c@);
                    assert(ns.contains(c@));
                } else {
                    assert forall|k: int| 0 <= k < ns.len() implies ns[k] != c@ by {
                        assert(ns[k] == names@[k]@);
                    }
                    assert(!ns.contains(c@));
                }
            }
            if !seen {
                let ghost before = names@;
                names.push(String::from_str(c));
                proof {
                    assert(texts(names@) =~= texts(before).push(c@));
                }
            }
        }
        i = i + 1;
    }
    proof {
        assert(techniques@.take(i as int) == techniques@);
    }
    let mut out: Vec<StyleInfo> = Vec::new();
    let mut g: usize = 0;
    while g < names.len()
        invariant
            g <= names@.len(),
            texts(names@) == cats,
            cats == style_categories(techniques@, *options),
            out@.len() == g,
            forall|k: int|
                0 <= k < g ==> (#[trigger] out@[k]).category@ == cats[k] && styles_view(
                    out@[k].techniques@,
                ) == category_members(techniques@, cats[k], options.example_count as nat),
        decreases names.len() - g,
    {
        let cat = names[g].as_str();
        let mut members: Vec<TechniqueStyle> = Vec::new();
        let mut i: usize = 0;
        while i < techniques.len()
            invariant
                i <= techniques@.len(),
                styles_view(members@) == category_members(
                    techniques@.take(i as int),
                    cat@,
                    options.example_count as nat,
                ),
            decreases techniques.len() - i,
        {
            proof {
                assert(techniques@.take(i + 1).drop_last() == techniques@.take(i as int));
            }
            let t = &techniques[i];
            if str_eq(t.technique_type.as_str(), cat) {
                let style = TechniqueStyle {
                    title: String::from_str(t.title.as_str()),
                    description: String::from_str(t.description.as_str()),
                    mechanism: String::from_str(t.mechanism.as_str()),
                    examples: copy_text_list(&t.evidence, options.example_count),
                };
                let ghost before = members@;
                members.push(style);
                proof {
                    assert(styles_view(members@) =~= styles_view(before).push(
                        style_of(techniques@[i as int], options.example_count as nat),
                    ));
                }
            }
            i = i + 1;
        }
        proof {
            assert(techniques@.take(i as int) == techniques@);
            assert(texts(names@)[g as int] == cat@);
        }
        out.push(StyleInfo { category: String::from_str(cat), techniques: members });
        g = g + 1;
    }
    out
}

} // verus!
