//! The story bible of a book as a Markdown document: its characters, settings,
//! events and collected techniques.
use vstd::prelude::*;
use crate::analysis::TechniqueCardInfo;
use crate::export::{
    get_technique_type_label, push_examples, push_str, quoted_examples, technique_type_label,
    ExportOptions,
};
use crate::inbox::texts;
use crate::text::{chars_of, join, str_eq, string_of};

verus! {

/// A character as the story bible shows it.
pub struct CharacterEntry {
    pub name: String,
    pub aliases: Vec<String>,
    pub role: String,
    pub description: Option<String>,
    pub traits: Vec<String>,
    /// Each related character's name with the relation.
    pub relationships: Vec<(String, String)>,
    pub notes: Option<String>,
}

/// A setting as the story bible shows it.
pub struct SettingEntry {
    pub name: String,
    pub setting_type: String,
    pub description: Option<String>,
    /// Each property's key with its value as text.
    pub properties: Vec<(String, String)>,
    pub notes: Option<String>,
}

/// An event as the story bible shows it.
pub struct EventEntry {
    pub title: String,
    pub importance: String,
    pub description: Option<String>,
    pub characters_involved: Vec<String>,
    pub notes: Option<String>,
}

/// `- item` lines, one for each item.
pub open spec fn dash_lines(items: Seq<String>) -> Seq<char>
    decreases items.len(),
{
    if items.len() == 0 {
        Seq::<char>::empty()
    } else {
        dash_lines(items.drop_last()) + "- "@ + items.last()@ + "\n"@
    }
}

/// `- key<mid>value` lines, one for each pair.
pub open spec fn pair_lines(pairs: Seq<(String, String)>, mid: Seq<char>) -> Seq<char>
    decreases pairs.len(),
{
    if pairs.len() == 0 {
        Seq::<char>::empty()
    } else {
        pair_lines(pairs.drop_last(), mid) + "- "@ + pairs.last().0@ + mid + pairs.last().1@ + "\n"@
    }
}

/// A text followed by a blank line, where there is one.
pub open spec fn paragraph(o: Option<String>) -> Seq<char> {
    match o {
        Some(t) => t@ + "\n\n"@,
        None => Seq::<char>::empty(),
    }
}

/// The notes line, where there are notes.
pub open spec fn notes_line(o: Option<String>) -> Seq<char> {
    match o {
        Some(t) => "**备注**: "@ + t@ + "\n\n"@,
        None => Seq::<char>::empty(),
    }
}

/// A labelled list (`label`, its lines, a blank line), where it has lines.
pub open spec fn listed(nonempty: bool, label: Seq<char>, lines: Seq<char>) -> Seq<char> {
    if nonempty {
        label + lines + "\n"@
    } else {
        Seq::<char>::empty()
    }
}

/// The opening of a character's section: name, aliases where it has any, role, and
/// description where it has one.
pub open spec fn character_head(c: CharacterEntry) -> Seq<char> {
    "### "@ + c.name@ + "\n\n"@ + (if c.aliases@.len() > 0 {
        "**别名**: "@ + join(texts(c.aliases@), ", "@) + "\n\n"@
    } else {
        Seq::<char>::empty()
    }) + "**角色**: "@ + c.role@ + "\n\n"@ + paragraph(c.description)
}

/// A character's traits and relationships, where it has any.
pub open spec fn character_lists(c: CharacterEntry) -> Seq<char> {
    listed(c.traits@.len() > 0, "**特征**:\n"@, dash_lines(c.traits@)) + listed(
        c.relationships@.len() > 0,
        "**关系**:\n"@,
        pair_lines(c.relationships@, " - "@),
    )
}

/// The section of one character.
pub open spec fn character_text(c: CharacterEntry) -> Seq<char> {
    character_head(c) + character_lists(c) + notes_line(c.notes) + "---\n\n"@
}

/// The section of one setting.
pub open spec fn setting_text(s: SettingEntry) -> Seq<char> {
    "### "@ + s.name@ + " ("@ + s.setting_type@ + ")\n\n"@ + paragraph(s.description) + listed(
        s.properties@.len() > 0,
        "**属性**:\n"@,
        pair_lines(s.properties@, ": "@),
    ) + notes_line(s.notes) + "---\n\n"@
}

/// The section of one event.
pub open spec fn event_text(e: EventEntry) -> Seq<char> {
    "### "@ + e.title@ + "\n\n"@ + "**重要性**: "@ + e.importance@ + "\n\n"@ + paragraph(e.description)
        + (if e.characters_involved@.len() > 0 {
        "**相关人物**: "@ + join(texts(e.characters_involved@), ", "@) + "\n\n"@
    } else {
        Seq::<char>::empty()
    }) + notes_line(e.notes) + "---\n\n"@
}

/// The mechanism line of a technique, where it has one.
pub open spec fn mechanism_part(t: TechniqueCardInfo) -> Seq<char> {
    if t.mechanism@.len() > 0 {
        "**实现机制**: "@ + t.mechanism@ + "\n\n"@
    } else {
        Seq::<char>::empty()
    }
}

/// The evidence of a technique as quotes, where it has any.
pub open spec fn evidence_part(t: TechniqueCardInfo) -> Seq<char> {
    if t.evidence@.len() > 0 {
        "**原文证据**:\n"@ + quoted_examples(t.evidence@)
    } else {
        Seq::<char>::empty()
    }
}

/// The tags of a technique, where it has any.
pub open spec fn tags_part(t: TechniqueCardInfo) -> Seq<char> {
    if t.tags@.len() > 0 {
        "**标签**: "@ + join(texts(t.tags@), ", "@) + "\n\n"@
    } else {
        Seq::<char>::empty()
    }
}

/// The section of one collected technique: title, description, then its mechanism,
/// evidence and tags where it has them.
pub open spec fn technique_text(t: TechniqueCardInfo) -> Seq<char> {
    "#### "@ + t.title@ + "\n\n"@ + t.description@ + "\n\n"@ + mechanism_part(t) + evidence_part(t)
        + tags_part(t)
}

pub open spec fn characters_text(cs: Seq<CharacterEntry>) -> Seq<char>
    decreases cs.len(),
{
    if cs.len() == 0 {
        Seq::<char>::empty()
    } else {
        characters_text(cs.drop_last()) + character_text(cs.last())
    }
}

pub open spec fn settings_text(ss: Seq<SettingEntry>) -> Seq<char>
    decreases ss.len(),
{
    if ss.len() == 0 {
        Seq::<char>::empty()
    } else {
        settings_text(ss.drop_last()) + setting_text(ss.last())
    }
}

pub open spec fn events_text(es: Seq<EventEntry>) -> Seq<char>
    decreases es.len(),
{
    if es.len() == 0 {
        Seq::<char>::empty()
    } else {
        events_text(es.drop_last()) + event_text(es.last())
    }
}

/// The technique types, each once, in the order first met.
pub open spec fn technique_types(ts: Seq<TechniqueCardInfo>) -> Seq<Seq<char>>
    decreases ts.len(),
{
    if ts.len() == 0 {
        Seq::<Seq<char>>::empty()
    } else {
        let prev = technique_types(ts.drop_last());
        if prev.contains(ts.last().technique_type@) {
            prev
        } else {
            prev.push(ts.last().technique_type@)
        }
    }
}

/// The sections of the techniques of type `ty`, in order.
pub open spec fn techniques_of_type(ts: Seq<TechniqueCardInfo>, ty: Seq<char>) -> Seq<char>
    decreases ts.len(),
{
    if ts.len() == 0 {
        Seq::<char>::empty()
    } else {
        techniques_of_type(ts.drop_last(), ty) + if ts.last().technique_type@ == ty {
            technique_text(ts.last())
        } else {
            Seq::<char>::empty()
        }
    }
}

/// Under the label of each type, the techniques of that type.
pub open spec fn grouped_techniques(ts: Seq<TechniqueCardInfo>, types: Seq<Seq<char>>) -> Seq<char>
    decreases types.len(),
{
    if types.len() == 0 {
        Seq::<char>::empty()
    } else {
        grouped_techniques(ts, types.drop_last()) + "### "@ + technique_type_label(types.last())
            + "\n\n"@ + techniques_of_type(ts, types.last())
    }
}

/// A part of the story bible, where it is included and has entries.
pub open spec fn part(included: bool, count: nat, heading: Seq<char>, body: Seq<char>) -> Seq<char> {
    if included && count > 0 {
        heading + body
    } else {
        Seq::<char>::empty()
    }
}

/// The story bible in Markdown: the title and export time, then the characters,
/// settings, events and collected techniques (grouped by type, types in the order
/// first met) that the options include and the book has.
pub open spec fn bible_markdown(
    book_title: Seq<char>,
    exported_at: Seq<char>,
    options: ExportOptions,
    characters: Seq<CharacterEntry>,
    settings: Seq<SettingEntry>,
    events: Seq<EventEntry>,
    techniques: Seq<TechniqueCardInfo>,
) -> Seq<char> {
    "# "@ + book_title + " - 故事圣经\n\n"@ + "> 导出时间: "@ + exported_at + "\n\n"@ + "---\n\n"@
        + part(options.include_characters, characters.len(), "## 人物\n\n"@, characters_text(characters))
        + part(options.include_settings, settings.len(), "## 设定\n\n"@, settings_text(settings)) + part(
        options.include_events,
        events.len(),
        "## 事件\n\n"@,
        events_text(events),
    ) + part(
        options.include_techniques,
        techniques.len(),
        "## 收藏的技法\n\n"@,
        grouped_techniques(techniques, technique_types(techniques)),
    )
}

fn push_joined(out: &mut Vec<char>, v: &Vec<String>, sep: &str)
    ensures
        final(out)@ == old(out)@ + join(texts(v@), sep@),
{
    let ghost start = out@;
    let mut i: usize = 0;
    while i < v.len()
        invariant
            i <= v@.len(),
            out@ == start + join(texts(v@).take(i as int), sep@),
        decreases v.len() - i,
    {
        let ghost before = out@;
        if i > 0 {
            push_str(out, sep);
        }
        push_str(out, v[i].as_str());
        proof {
            let t = texts(v@).take(i + 1);
            assert(t.drop_last() =~= texts(v@).take(i as int));
            assert(t.last() == v@[i as int]@);
            if i == 0 {
                assert(join(texts(v@).take(0), sep@) =~= Seq::<char>::empty());
                assert(out@ =~= start + join(t, sep@));
            } else {
                assert(out@ =~= start + join(t, sep@));
            }
        }
        i = i + 1;
    }
    proof {
        assert(texts(v@).take(i as int) == texts(v@));
    }
}

fn push_dash_lines(out: &mut Vec<char>, items: &Vec<String>)
    ensures
        final(out)@ == old(out)@ + dash_lines(items@),
{
    let ghost start = out@;
    let mut i: usize = 0;
    while i < items.len()
        invariant
            i <= items@.len(),
            out@ == start + dash_lines(items@.take(i as int)),
        decreases items.len() - i,
    {
        proof {
            assert(items@.take(i + 1).drop_last() == items@.take(i as int));
        }
        push_str(out, "- ");
        push_str(out, items[i].as_str());
        push_str(out, "\n");
        proof {
            assert(out@ =~= start + dash_lines(items@.take(i + 1)));
        }
        i = i + 1;
    }
    proof {
        assert(items@.take(i as int) == items@);
    }
}

fn push_pair_lines(out: &mut Vec<char>, pairs: &Vec<(String, String)>, mid: &str)
    ensures
        final(out)@ == old(out)@ + pair_lines(pairs@, mid@),
{
    let ghost start = out@;
    let mut i: usize = 0;
    while i < pairs.len()
        invariant
            i <= pairs@.len(),
            out@ == start + pair_lines(pairs@.take(i as int), mid@),
        decreases pairs.len() - i,
    {
        proof {
            assert(pairs@.take(i + 1).drop_last() == pairs@.take(i as int));
        }
        push_str(out, "- ");
        push_str(out, pairs[i].0.as_str());
        push_str(out, mid);
        push_str(out, pairs[i].1.as_str());
        push_str(out, "\n");
        proof {
            assert(out@ =~= start + pair_lines(pairs@.take(i + 1), mid@));
        }
        i = i + 1;
    }
    proof {
        assert(pairs@.take(i as int) == pairs@);
    }
}

fn push_paragraph(out: &mut Vec<char>, o: &Option<String>)
    ensures
        final(out)@ == old(out)@ + paragraph(*o),
{
    match o {
        Some(t) => {
            push_str(out, t.as_str());
            push_str(out, "\n\n");
        },
        None => {},
    }
    assert(out@ =~= old(out)@ + paragraph(*o));
}

fn push_notes(out: &mut Vec<char>, o: &Option<String>)
    ensures
        final(out)@ == old(out)@ + notes_line(*o),
{
    match o {
        Some(t) => {
            push_str(out, "**备注**: ");
            push_str(out, t.as_str());
            push_str(out, "\n\n");
        },
        None => {},
    }
    assert(out@ =~= old(out)@ + notes_line(*o));
}

fn push_character_head(out: &mut Vec<char>, c: &CharacterEntry)
    ensures
        final(out)@ == old(out)@ + character_head(*c),
{
    let ghost start = out@;
    push_str(out, "### ");
    push_str(out, c.name.as_str());
    push_str(out, "\n\n");
    let ghost a = out@;
    if c.aliases.len() > 0 {
        push_str(out, "**别名**: ");
        push_joined(out, &c.aliases, ", ");
        push_str(out, "\n\n");
    }
    let ghost b = out@;
    push_str(out, "**角色**: ");
    push_str(out, c.role.as_str());
    push_str(out, "\n\n");
    push_paragraph(out, &c.description);
    proof {
        assert(b =~= a + if c.aliases@.len() > 0 {
            "**别名**: "@ + join(texts(c.aliases@), ", "@) + "\n\n"@
        } else {
            Seq::<char>::empty()
        });
        assert(out@ =~= start + character_head(*c));
    }
}

fn push_character_lists(out: &mut Vec<char>, c: &CharacterEntry)
    ensures
        final(out)@ == old(out)@ + character_lists(*c),
{
    let ghost start = out@;
    if c.traits.len() > 0 {
        push_str(out, "**特征**:\n");
        push_dash_lines(out, &c.traits);
        push_str(out, "\n");
    }
    let ghost e = out@;
    if c.relationships.len() > 0 {
        push_str(out, "**关系**:\n");
        push_pair_lines(out, &c.relationships, " - ");
        push_str(out, "\n");
    }
    proof {
        assert(e =~= start + listed(c.traits@.len() > 0, "**特征**:\n"@, dash_lines(c.traits@)));
        assert(out@ =~= e + listed(
            c.relationships@.len() > 0,
            "**关系**:\n"@,
            pair_lines(c.relationships@, " - "@),
        ));
        assert(out@ =~= start + character_lists(*c));
    }
}

fn push_character(out: &mut Vec<char>, c: &CharacterEntry)
    ensures
        final(out)@ == old(out)@ + character_text(*c),
{
    let ghost start = out@;
    push_character_head(out, c);
    push_character_lists(out, c);
    push_notes(out, &c.notes);
    push_str(out, "---\n\n");
    assert(out@ =~= start + character_text(*c));
}

fn push_setting(out: &mut Vec<char>, s: &SettingEntry)
    ensures
        final(out)@ == old(out)@ + setting_text(*s),
{
    let ghost start = out@;
    push_str(out, "### ");
    push_str(out, s.name.as_str());
    push_str(out, " (");
    push_str(out, s.setting_type.as_str());
    push_str(out, ")\n\n");
    push_paragraph(out, &s.description);
    let ghost a = out@;
    if s.properties.len() > 0 {
        push_str(out, "**属性**:\n");
        push_pair_lines(out, &s.properties, ": ");
        push_str(out, "\n");
    }
    let ghost b = out@;
    push_notes(out, &s.notes);
    push_str(out, "---\n\n");
    proof {
        assert(b =~= a + listed(s.properties@.len() > 0, "**属性**:\n"@, pair_lines(s.properties@, ": "@)));
        assert(out@ =~= start + setting_text(*s));
    }
}

fn push_event(out: &mut Vec<char>, e: &EventEntry)
    ensures
        final(out)@ == old(out)@ + event_text(*e),
{
    let ghost start = out@;
    push_str(out, "### ");
    push_str(out, e.title.as_str());
    push_str(out, "\n\n");
    push_str(out, "**重要性**: ");
    push_str(out, e.importance.as_str());
    push_str(out, "\n\n");
    push_paragraph(out, &e.description);
    let ghost a = out@;
    if e.characters_involved.len() > 0 {
        push_str(out, "**相关人物**: ");
        push_joined(out, &e.characters_involved, ", ");
        push_str(out, "\n\n");
    }
    let ghost b = out@;
    push_notes(out, &e.notes);
    push_str(out, "---\n\n");
    proof {
        assert(b =~= a + if e.characters_involved@.len() > 0 {
            "**相关人物**: "@ + join(texts(e.characters_involved@), ", "@) + "\n\n"@
        } else {
            Seq::<char>::empty()
        });
        assert(out@ =~= start + event_text(*e));
    }
}

fn push_mechanism(out: &mut Vec<char>, t: &TechniqueCardInfo)
    ensures
        final(out)@ == old(out)@ + mechanism_part(*t),
{
    if chars_of(t.mechanism.as_str()).len() > 0 {
        push_str(out, "**实现机制**: ");
        push_str(out, t.mechanism.as_str());
        push_str(out, "\n\n");
    }
    assert(out@ =~= old(out)@ + mechanism_part(*t));
}

fn push_evidence(out: &mut Vec<char>, t: &TechniqueCardInfo)
    ensures
        final(out)@ == old(out)@ + evidence_part(*t),
{
    if t.evidence.len() > 0 {
        push_str(out, "**原文证据**:\n");
        push_examples(out, &t.evidence);
    }
    assert(out@ =~= old(out)@ + evidence_part(*t));
}

fn push_tags(out: &mut Vec<char>, t: &TechniqueCardInfo)
    ensures
        final(out)@ == old(out)@ + tags_part(*t),
{
    if t.tags.len() > 0 {
        push_str(out, "**标签**: ");
        push_joined(out, &t.tags, ", ");
        push_str(out, "\n\n");
    }
    assert(out@ =~= old(out)@ + tags_part(*t));
}

fn push_technique(out: &mut Vec<char>, t: &TechniqueCardInfo)
    ensures
        final(out)@ == old(out)@ + technique_text(*t),
{
    let ghost start = out@;
    push_str(out, "#### ");
    push_str(out, t.title.as_str());
    push_str(out, "\n\n");
    push_str(out, t.description.as_str());
    push_str(out, "\n\n");
    push_mechanism(out, t);
    push_evidence(out, t);
    push_tags(out, t);
    assert(out@ =~= start + technique_text(*t));
}

fn push_characters(out: &mut Vec<char>, cs: &Vec<CharacterEntry>)
    ensures
        final(out)@ == old(out)@ + characters_text(cs@),
{
    let ghost start = out@;
    let mut i: usize = 0;
    while i < cs.len()
        invariant
            i <= cs@.len(),
            out@ == start + characters_text(cs@.take(i as int)),
        decreases cs.len() - i,
    {
        proof {
            assert(cs@.take(i + 1).drop_last() == cs@.take(i as int));
        }
        push_character(out, &cs[i]);
        proof {
            assert(out@ =~= start + characters_text(cs@.take(i + 1)));
        }
        i = i + 1;
    }
    proof {
        assert(cs@.take(i as int) == cs@);
    }
}

fn push_settings(out: &mut Vec<char>, ss: &Vec<SettingEntry>)
    ensures
        final(out)@ == old(out)@ + settings_text(ss@),
{
    let ghost start = out@;
    let mut i: usize = 0;
    while i < ss.len()
        invariant
            i <= ss@.len(),
            out@ == start + settings_text(ss@.take(i as int)),
        decreases ss.len() - i,
    {
        proof {
            assert(ss@.take(i + 1).drop_last() == ss@.take(i as int));
        }
        push_setting(out, &ss[i]);
        proof {
            assert(out@ =~= start + settings_text(ss@.take(i + 1)));
        }
        i = i + 1;
    }
    proof {
        assert(ss@.take(i as int) == ss@);
    }
}

fn push_events(out: &mut Vec<char>, es: &Vec<EventEntry>)
    ensures
        final(out)@ == old(out)@ + events_text(es@),
{
    let ghost start = out@;
    let mut i: usize = 0;
    while i < es.len()
        invariant
            i <= es@.len(),
            out@ == start + events_text(es@.take(i as int)),
        decreases es.len() - i,
    {
        proof {
            assert(es@.take(i + 1).drop_last() == es@.take(i as int));
        }
        push_event(out, &es[i]);
        proof {
            assert(out@ =~= start + events_text(es@.take(i + 1)));
        }
        i = i + 1;
    }
    proof {
        assert(es@.take(i as int) == es@);
    }
}

fn collect_types(ts: &Vec<TechniqueCardInfo>) -> (res: Vec<String>)
    ensures
        texts(res@) == technique_types(ts@),
{
    let mut out: Vec<String> = Vec::new();
    let mut i: usize = 0;
    while i < ts.len()
        invariant
            i <= ts@.len(),
            texts(out@) == technique_types(ts@.take(i as int)),
        decreases ts.len() - i,
    {
        proof {
            assert(ts@.take(i + 1).drop_last() == ts@.take(i as int));
            assert(ts@.take(i + 1).last() == ts@[i as int]);
        }
        let ty = ts[i].technique_type.as_str();
        let mut j: usize = 0;
        let mut seen = false;
        while j < out.len()
            invariant
                j <= out@.len(),
                seen <==> exists|k: int| 0 <= k < j && texts(out@)[k] == ty@,
            decreases out.len() - j,
        {
            if str_eq(out[j].as_str(), ty) {
                seen = true;
                assert(texts(out@)[j as int] == ty@);
            }
            j = j + 1;
        }
        if !seen {
            let ghost before = out@;
            out.push(string_of(chars_of(ty).as_slice()));
            proof {
                assert(texts(out@) =~= texts(before).push(ty@));
            }
        }
        i = i + 1;
    }
    proof {
        assert(ts@.take(i as int) == ts@);
    }
    out
}

fn push_techniques_of_type(out: &mut Vec<char>, ts: &Vec<TechniqueCardInfo>, ty: &str)
    ensures
        final(out)@ == old(out)@ + techniques_of_type(ts@, ty@),
{
    let ghost start = out@;
    let mut i: usize = 0;
    while i < ts.len()
        invariant
            i <= ts@.len(),
            out@ == start + techniques_of_type(ts@.take(i as int), ty@),
        decreases ts.len() - i,
    {
        proof {
            assert(ts@.take(i + 1).drop_last() == ts@.take(i as int));
            assert(ts@.take(i + 1).last() == ts@[i as int]);
        }
        if str_eq(ts[i].technique_type.as_str(), ty) {
            push_technique(out, &ts[i]);
        }
        proof {
            assert(out@ =~= start + techniques_of_type(ts@.take(i + 1), ty@));
        }
        i = i + 1;
    }
    proof {
        assert(ts@.take(i as int) == ts@);
    }
}

fn push_grouped_techniques(out: &mut Vec<char>, ts: &Vec<TechniqueCardInfo>)
    ensures
        final(out)@ == old(out)@ + grouped_techniques(ts@, technique_types(ts@)),
{
    let types = collect_types(ts);
    let ghost tv = texts(types@);
    let ghost start = out@;
    let mut i: usize = 0;
    while i < types.len()
        invariant
            i <= types@.len(),
            tv == texts(types@),
            out@ == start + grouped_techniques(ts@, tv.take(i as int)),
        decreases types.len() - i,
    {
        proof {
            assert(tv.take(i + 1).drop_last() == tv.take(i as int));
            assert(tv.take(i + 1).last() == types@[i as int]@);
        }
        push_str(out, "### ");
        push_str(out, get_technique_type_label(types[i].as_str()));
        push_str(out, "\n\n");
        push_techniques_of_type(out, ts, types[i].as_str());
        proof {
            assert(out@ =~= start + grouped_techniques(ts@, tv.take(i + 1)));
        }
        i = i + 1;
    }
    proof {
        assert(tv.take(i as int) == tv);
    }
}

/// The story bible of a book in Markdown (see `bible_markdown`), given the time of the
/// export as text.
#[verifier::rlimit(60)]
pub fn generate_markdown_export(
    book_title: &str,
    exported_at: &str,
    options: &ExportOptions,
    characters: &Vec<CharacterEntry>,
    settings: &Vec<SettingEntry>,
    events: &Vec<EventEntry>,
    techniques: &Vec<TechniqueCardInfo>,
) -> (res: String)
    ensures
        res@ == bible_markdown(
            book_title@,
            exported_at@,
            *options,
            characters@,
            settings@,
            events@,
            techniques@,
        ),
{
    let mut out: Vec<char> = Vec::new();
    push_str(&mut out, "# ");
    push_str(&mut out, book_title);
    push_str(&mut out, " - 故事圣经\n\n");
    push_str(&mut out, "> 导出时间: ");
    push_str(&mut out, exported_at);
    push_str(&mut out, "\n\n");
    push_str(&mut out, "---\n\n");
    let ghost a = out@;
    if options.include_characters && characters.len() > 0 {
        push_str(&mut out, "## 人物\n\n");
        push_characters(&mut out, characters);
    }
    let ghost b = out@;
    if options.include_settings && settings.len() > 0 {
        push_str(&mut out, "## 设定\n\n");
        push_settings(&mut out, settings);
    }
    let ghost c = out@;
    if options.include_events && events.len() > 0 {
        push_str(&mut out, "## 事件\n\n");
        push_events(&mut out, events);
    }
    let ghost d = out@;
    if options.include_techniques && techniques.len() > 0 {
        push_str(&mut out, "## 收藏的技法\n\n");
        push_grouped_techniques(&mut out, techniques);
    }
    proof {
        assert(b =~= a + part(
            options.include_characters,
            characters@.len(),
            "## 人物\n\n"@,
            characters_text(characters@),
        ));
        assert(c =~= b + part(options.include_settings, settings@.len(), "## 设定\n\n"@, settings_text(settings@)));
        assert(d =~= c + part(options.include_events, events@.len(), "## 事件\n\n"@, events_text(events@)));
        assert(out@ =~= bible_markdown(
            book_title@,
            exported_at@,
            *options,
            characters@,
            settings@,
            events@,
            techniques@,
        ));
    }
    string_of(&out)
}

} // verus!
