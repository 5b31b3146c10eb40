//! Style profiles: the writing style aggregated over a book's chapters, and the
//! prompts and documents written from it.
use vstd::prelude::*;
use crate::export::{
    push_str, push_template_heading, push_template_section, template_heading, template_section,
    StyleExportOptions, StyleProfileExportOptions, StylePromptTemplate,
};
use crate::text::{str_eq, string_of};
use crate::toc::lookup;

verus! {

/// A style profile as the prompts read it.
pub struct StyleProfile {
    /// The sections present in the profile, by name, each with those of its fields
    /// whose values are strings.
    pub sections: Vec<(String, Vec<(String, String)>)>,
    /// The items of `key_observations` where it is a list: each item's text where the
    /// item is a string.
    pub key_observations: Option<Vec<Option<String>>>,
}

/// How a field's value is shown: as it is, or by the label of a known value.
pub enum ValueLabels {
    Verbatim,
    Formality,
    SentenceLength,
    Perspective,
    DialogueShare,
    DetailLevel,
    Tempo,
}

/// How a value is shown: the label of a known value, else the value itself.
pub open spec fn value_label(kind: ValueLabels, v: Seq<char>) -> Seq<char> {
    match kind {
        ValueLabels::Verbatim => v,
        ValueLabels::Formality => if v == "formal"@ {
            "正式"@
        } else if v == "semi_formal"@ {
            "半正式"@
        } else if v == "colloquial"@ {
            "口语化"@
        } else if v == "mixed"@ {
            "混合"@
        } else {
            v
        },
        ValueLabels::SentenceLength => if v == "short"@ {
            "短句为主"@
        } else if v == "medium"@ {
            "中等长度"@
        } else if v == "long"@ {
            "长句为主"@
        } else if v == "varied"@ {
            "长短变化"@
        } else {
            v
        },
        ValueLabels::Perspective => if v == "first_person"@ {
            "第一人称"@
        } else if v == "third_limited"@ {
            "第三人称有限"@
        } else if v == "third_omniscient"@ {
            "第三人称全知"@
        } else if v == "second_person"@ {
            "第二人称"@
        } else if v == "multiple"@ {
            "多视角"@
        } else {
            v
        },
        ValueLabels::DialogueShare => if v == "low"@ {
            "较少"@
        } else if v == "moderate"@ {
            "适度"@
        } else if v == "high"@ {
            "较多"@
        } else {
            v
        },
        ValueLabels::DetailLevel => if v == "minimal"@ {
            "极简"@
        } else if v == "selective"@ {
            "精选"@
        } else if v == "detailed"@ {
            "详细"@
        } else if v == "exhaustive"@ {
            "详尽"@
        } else {
            v
        },
        ValueLabels::Tempo => if v == "slow"@ {
            "舒缓"@
        } else if v == "moderate"@ {
            "中等"@
        } else if v == "fast"@ {
            "紧凑"@
        } else if v == "variable"@ {
            "变化"@
        } else {
            v
        },
    }
}

/// A field that the prompt shows: its key, its label, and how its value is shown.
pub type FieldShown = (Seq<char>, Seq<char>, ValueLabels);

pub open spec fn shown_view(shown: Seq<(&str, &str, ValueLabels)>) -> Seq<FieldShown> {
    shown.map_values(|f: (&str, &str, ValueLabels)| (f.0@, f.1@, f.2))
}

/// The lines of the shown fields that a section has, in order.
pub open spec fn fields_text(fields: Seq<(String, String)>, shown: Seq<FieldShown>) -> Seq<char>
    decreases shown.len(),
{
    if shown.len() == 0 {
        Seq::<char>::empty()
    } else {
        let f = shown.last();
        fields_text(fields, shown.drop_last()) + match lookup(fields, f.0) {
            Some(v) => "• "@ + f.1 + ": "@ + value_label(f.2, v) + "\n"@,
            None => Seq::<char>::empty(),
        }
    }
}

/// The fields of the first section named `name`.
pub open spec fn section_fields(sections: Seq<(String, Vec<(String, String)>)>, name: Seq<char>) -> Option<
    Seq<(String, String)>,
>
    decreases sections.len(),
{
    if sections.len() == 0 {
        None
    } else if sections[0].0@ == name {
        Some(sections[0].1@)
    } else {
        section_fields(sections.drop_first(), name)
    }
}

/// A section of the prompt where the profile has the section: its heading in
/// brackets, the lines of its shown fields, and a blank line.
pub open spec fn section_text(p: StyleProfile, name: Seq<char>, heading: Seq<char>, shown: Seq<FieldShown>) -> Seq<
    char,
> {
    match section_fields(p.sections@, name) {
        Some(fs) => "【"@ + heading + "】\n"@ + fields_text(fs, shown) + "\n"@,
        None => Seq::<char>::empty(),
    }
}

/// The lines of the observations that are strings.
pub open spec fn observation_lines(items: Seq<Option<String>>) -> Seq<char>
    decreases items.len(),
{
    if items.len() == 0 {
        Seq::<char>::empty()
    } else {
        observation_lines(items.drop_last()) + match items.last() {
            Some(s) => "• "@ + s@ + "\n"@,
            None => Seq::<char>::empty(),
        }
    }
}

/// The key observations where the profile lists any: of the first five items, those
/// that are strings.
pub open spec fn observations_text(obs: Option<Vec<Option<String>>>) -> Seq<char> {
    match obs {
        Some(items) => if items@.len() > 0 {
            let first = if items@.len() <= 5 {
                items@
            } else {
                items@.take(5)
            };
            "【关键观察】\n"@ + observation_lines(first) + "\n"@
        } else {
            Seq::<char>::empty()
        },
        None => Seq::<char>::empty(),
    }
}

/// The closing requirements of a prompt written from a profile.
pub open spec fn profile_requirements() -> Seq<char> {
    "创作要求：\n1. 保持原作的叙述节奏和语言风格\n2. 自然运用上述风格特征\n3. 保持人物对话的特色和氛围营造手法\n4. 在描写和叙事中体现原作的美学追求\n"@
}

/// The system prompt written from a style profile: the role, the book, the sections
/// the profile has (vocabulary, sentences, narrative voice, dialogue, description,
/// pacing, emotional tone) with their fields, the key observations, and the
/// requirements.
pub open spec fn profile_prompt(p: StyleProfile, book_title: Seq<char>, author: Seq<char>) -> Seq<char> {
    "你是一位精通模仿"@ + author + "写作风格的作家助手。\n\n"@ + "以下是从《"@ + book_title
        + "》中系统分析得出的写作风格特征，请在创作时严格遵循：\n\n"@ + section_text(
        p,
        "vocabulary"@,
        "词汇特征"@,
        seq![
            ("formality_level"@, "正式程度"@, ValueLabels::Formality),
            ("vocabulary_tendencies"@, "词汇倾向"@, ValueLabels::Verbatim),
            ("word_choice_patterns"@, "选词模式"@, ValueLabels::Verbatim),
        ],
    ) + section_text(
        p,
        "sentence_structure"@,
        "句式结构"@,
        seq![
            ("typical_length"@, "句子长度"@, ValueLabels::SentenceLength),
            ("rhythm_patterns"@, "节奏模式"@, ValueLabels::Verbatim),
            ("paragraph_structure"@, "段落结构"@, ValueLabels::Verbatim),
        ],
    ) + section_text(
        p,
        "narrative_voice"@,
        "叙事声音"@,
        seq![
            ("perspective"@, "叙述视角"@, ValueLabels::Perspective),
            ("narrator_characteristics"@, "叙述者特征"@, ValueLabels::Verbatim),
        ],
    ) + section_text(
        p,
        "dialogue_style"@,
        "对话风格"@,
        seq![
            ("dialogue_proportion"@, "对话比例"@, ValueLabels::DialogueShare),
            ("dialogue_tags"@, "对话标签"@, ValueLabels::Verbatim),
            ("character_voice_differentiation"@, "角色语言区分"@, ValueLabels::Verbatim),
        ],
    ) + section_text(
        p,
        "description_style"@,
        "描写风格"@,
        seq![
            ("detail_level"@, "细节程度"@, ValueLabels::DetailLevel),
            ("metaphor_usage"@, "比喻使用"@, ValueLabels::Verbatim),
            ("imagery_patterns"@, "意象模式"@, ValueLabels::Verbatim),
        ],
    ) + section_text(
        p,
        "pacing"@,
        "节奏控制"@,
        seq![
            ("overall_tempo"@, "整体节奏"@, ValueLabels::Tempo),
            ("scene_transitions"@, "场景转换"@, ValueLabels::Verbatim),
            ("tension_building"@, "张力营造"@, ValueLabels::Verbatim),
        ],
    ) + section_text(
        p,
        "emotional_tone"@,
        "情感基调"@,
        seq![
            ("dominant_mood"@, "主导情绪"@, ValueLabels::Verbatim),
            ("atmosphere_techniques"@, "氛围技法"@, ValueLabels::Verbatim),
        ],
    ) + observations_text(p.key_observations) + profile_requirements()
}

fn label_value(kind: &ValueLabels, v: &str) -> (res: String)
    ensures
        res@ == value_label(*kind, v@),
{
    let label: &str = match kind {
        ValueLabels::Verbatim => v,
        ValueLabels::Formality => if str_eq(v, "formal") {
            "正式"
        } else if str_eq(v, "semi_formal") {
            "半正式"
        } else if str_eq(v, "colloquial") {
            "口语化"
        } else if str_eq(v, "mixed") {
            "混合"
        } else {
            v
        },
        ValueLabels::SentenceLength => if str_eq(v, "short") {
            "短句为主"
        } else if str_eq(v, "medium") {
            "中等长度"
        } else if str_eq(v, "long") {
            "长句为主"
        } else if str_eq(v, "varied") {
            "长短变化"
        } else {
            v
        },
        ValueLabels::Perspective => if str_eq(v, "first_person") {
            "第一人称"
        } else if str_eq(v, "third_limited") {
            "第三人称有限"
        } else if str_eq(v, "third_omniscient") {
            "第三人称全知"
        } else if str_eq(v, "second_person") {
            "第二人称"
        } else if str_eq(v, "multiple") {
            "多视角"
        } else {
            v
        },
        ValueLabels::DialogueShare => if str_eq(v, "low") {
            "较少"
        } else if str_eq(v, "moderate") {
            "适度"
        } else if str_eq(v, "high") {
            "较多"
        } else {
            v
        },
        ValueLabels::DetailLevel => if str_eq(v, "minimal") {
            "极简"
        } else if str_eq(v, "selective") {
            "精选"
        } else if str_eq(v, "detailed") {
            "详细"
        } else if str_eq(v, "exhaustive") {
            "详尽"
        } else {
            v
        },
        ValueLabels::Tempo => if str_eq(v, "slow") {
            "舒缓"
        } else if str_eq(v, "moderate") {
            "中等"
        } else if str_eq(v, "fast") {
            "紧凑"
        } else if str_eq(v, "variable") {
            "变化"
        } else {
            v
        },
    };
    String::from_str(label)
}

fn pair_value<'a>(pairs: &'a Vec<(String, String)>, key: &str) -> (res: Option<&'a String>)
    ensures
        match res {
            Some(v) => lookup(pairs@, key@) == Some(v@),
            None => lookup(pairs@, key@) is None,
        },
{
    let mut i: usize = 0;
    proof {
        assert(pairs@.skip(0) == pairs@);
    }
    while i < pairs.len()
        invariant
            i <= pairs@.len(),
            lookup(pairs@, key@) == lookup(pairs@.skip(i as int), key@),
        decreases pairs.len() - i,
    {
        proof {
            assert(pairs@.skip(i as int)[0] == pairs@[i as int]);
            assert(pairs@.skip(i as int).drop_first() == pairs@.skip(i + 1));
        }
        if str_eq(pairs[i].0.as_str(), key) {
            return Some(&pairs[i].1);
        }
        i = i + 1;
    }
    None
}

fn find_section<'a>(sections: &'a Vec<(String, Vec<(String, String)>)>, name: &str) -> (res: Option<
    &'a Vec<(String, String)>,
>)
    ensures
        match res {
            Some(fs) => section_fields(sections@, name@) == Some(fs@),
            None => section_fields(sections@, name@) is None,
        },
{
    let mut i: usize = 0;
    proof {
        assert(sections@.skip(0) == sections@);
    }
    while i < sections.len()
        invariant
            i <= sections@.len(),
            section_fields(sections@, name@) == section_fields(sections@.skip(i as int), name@),
        decreases sections.len() - i,
    {
        proof {
            assert(sections@.skip(i as int)[0] == sections@[i as int]);
            assert(sections@.skip(i as int).drop_first() == sections@.skip(i + 1));
        }
        if str_eq(sections[i].0.as_str(), name) {
            return Some(&sections[i].1);
        }
        i = i + 1;
    }
    None
}

fn push_section(out: &mut Vec<char>, p: &StyleProfile, name: &str, heading: &str, shown: &Vec<(&str, &str, ValueLabels)>)
    ensures
        final(out)@ == old(out)@ + section_text(*p, name@, heading@, shown_view(shown@)),
{
    match find_section(&p.sections, name) {
        Some(fs) => {
            let ghost start = out@;
            let ghost sv = shown_view(shown@);
            push_str(out, "【");
            push_str(out, heading);
            push_str(out, "】\n");
            let ghost mid = out@;
            let mut i: usize = 0;
            while i < shown.len()
                invariant
                    i <= shown@.len(),
                    sv == shown_view(shown@),
                    out@ == mid + fields_text(fs@, sv.take(i as int)),
                decreases shown.len() - i,
            {
                proof {
                    assert(sv.take(i + 1).drop_last() == sv.take(i as int));
                    assert(sv.take(i + 1).last() == sv[i as int]);
                }
                let f = &shown[i];
                let ghost before = out@;
                match pair_value(fs, f.0) {
                    Some(v) => {
                        push_str(out, "• ");
                        push_str(out, f.1);
                        push_str(out, ": ");
                        let l = label_value(&f.2, v.as_str());
                        push_str(out, l.as_str());
                        push_str(out, "\n");
                        assert(out@ =~= before + ("• "@ + f.1@ + ": "@ + value_label(f.2, v@) + "\n"@));
                    },
                    None => {
                        assert(out@ =~= before + Seq::<char>::empty());
                    },
                }
                proof {
                    assert(out@ =~= mid + fields_text(fs@, sv.take(i + 1)));
                }
                i = i + 1;
            }
            push_str(out, "\n");
            proof {
                assert(sv.take(i as int) == sv);
                assert(out@ =~= start + ("【"@ + heading@ + "】\n"@ + fields_text(fs@, sv) + "\n"@));
            }
        },
        None => {
            assert(out@ =~= old(out)@ + Seq::<char>::empty());
        },
    }
}

fn push_observations(out: &mut Vec<char>, obs: &Option<Vec<Option<String>>>)
    ensures
        final(out)@ == old(out)@ + observations_text(*obs),
{
    match obs {
        Some(items) => {
            if items.len() > 0 {
                let ghost start = out@;
                let ghost first = if items@.len() <= 5 {
                    items@
                } else {
                    items@.take(5)
                };
                let n: usize = if items.len() <= 5 {
                    items.len()
                } else {
                    5
                };
                push_str(out, "【关键观察】\n");
                let ghost mid = out@;
                let mut i: usize = 0;
                while i < n
                    invariant
                        i <= n,
                        n <= items@.len(),
                        n == first.len(),
                        first == items@.take(n as int),
                        out@ == mid + observation_lines(first.take(i as int)),
                    decreases n - i,
                {
                    proof {
                        assert(first.take(i + 1).drop_last() == first.take(i as int));
                        assert(first.take(i + 1).last() == items@[i as int]);
                    }
                    let ghost before = out@;
                    match &items[i] {
                        Some(s) => {
                            push_str(out, "• ");
                            push_str(out, s.as_str());
                            push_str(out, "\n");
                        },
                        None => {},
                    }
                    proof {
                        assert(out@ =~= mid + observation_lines(first.take(i + 1)));
                    }
                    i = i + 1;
                }
                push_str(out, "\n");
                proof {
                    assert(first.take(i as int) == first);
                    assert(out@ =~= start + observations_text(*obs));
                }
            } else {
                assert(out@ =~= old(out)@ + observations_text(*obs));
            }
        },
        None => {
            assert(out@ =~= old(out)@ + observations_text(*obs));
        },
    }
}

/// The system prompt for imitating an author, written from the book's style profile.
pub fn generate_system_prompt_from_profile(profile: &StyleProfile, book_title: &str, author: &str) -> (res:
    String)
    ensures
        res@ == profile_prompt(*profile, book_title@, author@),
{
    let mut out: Vec<char> = Vec::new();
    push_str(&mut out, "你是一位精通模仿");
    push_str(&mut out, author);
    push_str(&mut out, "写作风格的作家助手。\n\n");
    push_str(&mut out, "以下是从《");
    push_str(&mut out, book_title);
    push_str(&mut out, "》中系统分析得出的写作风格特征，请在创作时严格遵循：\n\n");
    let ghost head = out@;
    let s1 = vec![
        ("formality_level", "正式程度", ValueLabels::Formality),
        ("vocabulary_tendencies", "词汇倾向", ValueLabels::Verbatim),
        ("word_choice_patterns", "选词模式", ValueLabels::Verbatim),
    ];
    push_section(&mut out, profile, "vocabulary", "词汇特征", &s1);
    let s2 = vec![
        ("typical_length", "句子长度", ValueLabels::SentenceLength),
        ("rhythm_patterns", "节奏模式", ValueLabels::Verbatim),
        ("paragraph_structure", "段落结构", ValueLabels::Verbatim),
    ];
    push_section(&mut out, profile, "sentence_structure", "句式结构", &s2);
    let s3 = vec![
        ("perspective", "叙述视角", ValueLabels::Perspective),
        ("narrator_characteristics", "叙述者特征", ValueLabels::Verbatim),
    ];
    push_section(&mut out, profile, "narrative_voice", "叙事声音", &s3);
    let s4 = vec![
        ("dialogue_proportion", "对话比例", ValueLabels::DialogueShare),
        ("dialogue_tags", "对话标签", ValueLabels::Verbatim),
        ("character_voice_differentiation", "角色语言区分", ValueLabels::Verbatim),
    ];
    push_section(&mut out, profile, "dialogue_style", "对话风格", &s4);
    let s5 = vec![
        ("detail_level", "细节程度", ValueLabels::DetailLevel),
        ("metaphor_usage", "比喻使用", ValueLabels::Verbatim),
        ("imagery_patterns", "意象模式", ValueLabels::Verbatim),
    ];
    push_section(&mut out, profile, "description_style", "描写风格", &s5);
    let s6 = vec![
        ("overall_tempo", "整体节奏", ValueLabels::Tempo),
        ("scene_transitions", "场景转换", ValueLabels::Verbatim),
        ("tension_building", "张力营造", ValueLabels::Verbatim),
    ];
    push_section(&mut out, profile, "pacing", "节奏控制", &s6);
    let s7 = vec![
        ("dominant_mood", "主导情绪", ValueLabels::Verbatim),
        ("atmosphere_techniques", "氛围技法", ValueLabels::Verbatim),
    ];
    push_section(&mut out, profile, "emotional_tone", "情感基调", &s7);
    push_observations(&mut out, &profile.key_observations);
    push_str(
        &mut out,
        "创作要求：\n1. 保持原作的叙述节奏和语言风格\n2. 自然运用上述风格特征\n3. 保持人物对话的特色和氛围营造手法\n4. 在描写和叙事中体现原作的美学追求\n",
    );
    proof {
        assert(shown_view(s1@) =~= seq![
            ("formality_level"@, "正式程度"@, ValueLabels::Formality),
            ("vocabulary_tendencies"@, "词汇倾向"@, ValueLabels::Verbatim),
            ("word_choice_patterns"@, "选词模式"@, ValueLabels::Verbatim),
        ]);
        assert(shown_view(s2@) =~= seq![
            ("typical_length"@, "句子长度"@, ValueLabels::SentenceLength),
            ("rhythm_patterns"@, "节奏模式"@, ValueLabels::Verbatim),
            ("paragraph_structure"@, "段落结构"@, ValueLabels::Verbatim),
        ]);
        assert(shown_view(s3@) =~= seq![
            ("perspective"@, "叙述视角"@, ValueLabels::Perspective),
            ("narrator_characteristics"@, "叙述者特征"@, ValueLabels::Verbatim),
        ]);
        assert(shown_view(s4@) =~= seq![
            ("dialogue_proportion"@, "对话比例"@, ValueLabels::DialogueShare),
            ("dialogue_tags"@, "对话标签"@, ValueLabels::Verbatim),
            ("character_voice_differentiation"@, "角色语言区分"@, ValueLabels::Verbatim),
        ]);
        assert(shown_view(s5@) =~= seq![
            ("detail_level"@, "细节程度"@, ValueLabels::DetailLevel),
            ("metaphor_usage"@, "比喻使用"@, ValueLabels::Verbatim),
            ("imagery_patterns"@, "意象模式"@, ValueLabels::Verbatim),
        ]);
        assert(shown_view(s6@) =~= seq![
            ("overall_tempo"@, "整体节奏"@, ValueLabels::Tempo),
            ("scene_transitions"@, "场景转换"@, ValueLabels::Verbatim),
            ("tension_building"@, "张力营造"@, ValueLabels::Verbatim),
        ]);
        assert(shown_view(s7@) =~= seq![
            ("dominant_mood"@, "主导情绪"@, ValueLabels::Verbatim),
            ("atmosphere_techniques"@, "氛围技法"@, ValueLabels::Verbatim),
        ]);
        assert(out@ =~= profile_prompt(*profile, book_title@, author@));
    }
    string_of(&out)
}

/// The system prompt in a code block with the template's instructions, without an
/// example of calling the model.
pub open spec fn plain_template_body(template: StylePromptTemplate, prompt: Seq<char>) -> Seq<char> {
    match template {
        StylePromptTemplate::Generic => "---\n\n## System Prompt\n\n```\n"@ + prompt + "\n```\n\n"@,
        StylePromptTemplate::OpenAI => "---\n\n## System Message\n\n将以下内容作为 `system` 角色的 message：\n\n```\n"@
            + prompt + "\n```\n\n"@,
        StylePromptTemplate::Claude => "---\n\n## System Prompt\n\n将以下内容作为 `system` 参数：\n\n```\n"@
            + prompt + "\n```\n\n"@,
        StylePromptTemplate::LocalLlm => "---\n\n## System Prompt\n\n适用于 llama.cpp, Ollama, vLLM 等本地推理框架：\n\n```\n"@
            + prompt + "\n```\n\n"@,
    }
}

/// The profile itself as JSON in the closing section of a profile document.
pub open spec fn profile_details(profile_json: Seq<char>) -> Seq<char> {
    "---\n\n## 风格分析详情\n\n```json\n"@ + profile_json + "\n```\n"@
}

/// The style profile document: the template section with the prompt written from
/// the profile, then the profile as JSON.
pub open spec fn profile_document(
    p: StyleProfile,
    profile_json: Seq<char>,
    book_title: Seq<char>,
    author: Seq<char>,
    template: StylePromptTemplate,
) -> Seq<char> {
    template_section(template, "风格"@, "风格档案"@, book_title, author, profile_prompt(p, book_title, author))
        + profile_details(profile_json)
}

/// The style document written from a profile where a book has one: the heading, the
/// source, the prompt written from the profile with the template's instructions, then
/// the profile as JSON.
pub open spec fn profile_style_document(
    p: StyleProfile,
    profile_json: Seq<char>,
    book_title: Seq<char>,
    author: Seq<char>,
    template: StylePromptTemplate,
) -> Seq<char> {
    template_heading(template, "风格"@, "作者风格模仿"@) + "来源: 《"@ + book_title + "》 - "@ + author
        + "\n\n"@ + plain_template_body(template, profile_prompt(p, book_title, author))
        + profile_details(profile_json)
}

fn push_plain_template_body(out: &mut Vec<char>, template: &StylePromptTemplate, prompt: &str)
    ensures
        final(out)@ == old(out)@ + plain_template_body(*template, prompt@),
{
    let ghost start = out@;
    match template {
        StylePromptTemplate::Generic => {
            push_str(out, "---\n\n## System Prompt\n\n```\n");
        },
        StylePromptTemplate::OpenAI => {
            push_str(out, "---\n\n## System Message\n\n将以下内容作为 `system` 角色的 message：\n\n```\n");
        },
        StylePromptTemplate::Claude => {
            push_str(out, "---\n\n## System Prompt\n\n将以下内容作为 `system` 参数：\n\n```\n");
        },
        StylePromptTemplate::LocalLlm => {
            push_str(out, "---\n\n## System Prompt\n\n适用于 llama.cpp, Ollama, vLLM 等本地推理框架：\n\n```\n");
        },
    }
    push_str(out, prompt);
    push_str(out, "\n```\n\n");
    assert(out@ =~= start + plain_template_body(*template, prompt@));
}

fn push_profile_details(out: &mut Vec<char>, profile_json: &str)
    ensures
        final(out)@ == old(out)@ + profile_details(profile_json@),
{
    let ghost start = out@;
    push_str(out, "---\n\n## 风格分析详情\n\n```json\n");
    push_str(out, profile_json);
    push_str(out, "\n```\n");
    assert(out@ =~= start + profile_details(profile_json@));
}

/// The style profile prompt document in Markdown, given the profile and its JSON text.
pub fn generate_style_profile_markdown(
    profile: &StyleProfile,
    profile_json: &str,
    book_title: &str,
    author: &str,
    options: &StyleProfileExportOptions,
) -> (res: Result<String, String>)
    ensures
        res matches Ok(md) && md@ == profile_document(
            *profile,
            profile_json@,
            book_title@,
            author@,
            options.prompt_template,
        ),
{
    let prompt = generate_system_prompt_from_profile(profile, book_title, author);
    let mut out: Vec<char> = Vec::new();
    push_template_section(
        &mut out,
        &options.prompt_template,
        "风格",
        "风格档案",
        book_title,
        author,
        prompt.as_str(),
    );
    push_profile_details(&mut out, profile_json);
    proof {
        assert(out@ =~= profile_document(
            *profile,
            profile_json@,
            book_title@,
            author@,
            options.prompt_template,
        ));
    }
    Ok(string_of(&out))
}

/// The style prompt document in Markdown for a book with a style profile, given the
/// profile and its JSON text.
pub fn generate_style_markdown_from_profile(
    profile: &StyleProfile,
    profile_json: &str,
    book_title: &str,
    author: &str,
    options: &StyleExportOptions,
) -> (res: Result<String, String>)
    ensures
        res matches Ok(md) && md@ == profile_style_document(
            *profile,
            profile_json@,
            book_title@,
            author@,
            options.prompt_template,
        ),
{
    let prompt = generate_system_prompt_from_profile(profile, book_title, author);
    let mut out: Vec<char> = Vec::new();
    push_template_heading(&mut out, &options.prompt_template, "风格", "作者风格模仿");
    push_str(&mut out, "来源: 《");
    push_str(&mut out, book_title);
    push_str(&mut out, "》 - ");
    push_str(&mut out, author);
    push_str(&mut out, "\n\n");
    push_plain_template_body(&mut out, &options.prompt_template, prompt.as_str());
    push_profile_details(&mut out, profile_json);
    proof {
        assert(out@ =~= profile_style_document(
            *profile,
            profile_json@,
            book_title@,
            author@,
            options.prompt_template,
        ));
    }
    Ok(string_of(&out))
}

} // verus!
