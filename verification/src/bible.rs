//! The story bible: events as shown, the story blueprint, and character roles by
//! how often characters appear.
use vstd::prelude::*;
use crate::text::{append_chars, chars_of, str_eq, string_of};

verus! {

/// An event as the story bible shows it.
pub struct EventInfo {
    pub id: String,
    pub title: String,
    pub description: Option<String>,
    pub chapter_id: Option<String>,
    pub characters_involved: Vec<String>,
    pub importance: String,
    pub evidence: Vec<String>,
    pub notes: Option<String>,
    pub updated_at: String,
    pub time_marker: Option<String>,
    pub order_in_chapter: i32,
    pub is_flashback: bool,
    pub relative_time: Option<String>,
}

/// An event on the story blueprint.
pub struct BlueprintEvent {
    pub id: String,
    pub title: String,
    pub description: Option<String>,
    pub importance: String,
    pub is_turning_point: bool,
    pub characters_involved: Vec<String>,
    pub time_marker: Option<String>,
}

/// A chapter on the story blueprint with its events.
pub struct ChapterBlueprint {
    pub id: String,
    pub index: u32,
    pub title: Option<String>,
    pub analyzed: bool,
    pub events: Vec<BlueprintEvent>,
}

/// The story blueprint of a book.
pub struct BlueprintData {
    pub book_id: String,
    pub total_chapters: u32,
    pub analyzed_chapters: u32,
    pub chapters: Vec<ChapterBlueprint>,
}

/// The outcome of updating character roles.
pub struct RoleUpdateResult {
    pub updated_count: u32,
    pub protagonist_count: u32,
    pub major_count: u32,
    pub supporting_count: u32,
    pub minor_count: u32,
}

// ---------------------------------------------------------------------------
// Roles
// ---------------------------------------------------------------------------

/// The role names a character can have.
pub open spec fn valid_role(role: Seq<char>) -> bool {
    role == "protagonist"@ || role == "major"@ || role == "supporting"@ || role == "minor"@
}

/// The message for a role that is not one of the four.
pub open spec fn invalid_role_message(role: Seq<char>) -> Seq<char> {
    "Invalid role '"@ + role
        + "'. Valid roles: [\"protagonist\", \"major\", \"supporting\", \"minor\"]"@
}

/// Checks that a role is one of `protagonist`, `major`, `supporting` and `minor`.
pub fn check_role(role: &str) -> (res: Result<(), String>)
    ensures
        res is Ok <==> valid_role(role@),
        res matches Err(m) ==> m@ == invalid_role_message(role@),
{
    if str_eq(role, "protagonist") || str_eq(role, "major") || str_eq(role, "supporting") || str_eq(
        role,
        "minor",
    ) {
        Ok(())
    } else {
        let mut m = chars_of("Invalid role '");
        append_chars(&mut m, chars_of(role).as_slice());
        append_chars(
            &mut m,
            chars_of("'. Valid roles: [\"protagonist\", \"major\", \"supporting\", \"minor\"]").as_slice(),
        );
        Err(string_of(&m))
    }
}

/// The number of counts among the first `n` that are greater than `c`.
pub open spec fn count_greater(counts: Seq<u32>, c: u32, n: int) -> nat
    decreases n,
{
    if n <= 0 {
        0
    } else {
        count_greater(counts, c, n - 1) + if counts[n - 1] > c {
            1nat
        } else {
            0nat
        }
    }
}

/// The number of counts among the first `n` that equal `c`.
pub open spec fn count_equal(counts: Seq<u32>, c: u32, n: int) -> nat
    decreases n,
{
    if n <= 0 {
        0
    } else {
        count_equal(counts, c, n - 1) + if counts[n - 1] == c {
            1nat
        } else {
            0nat
        }
    }
}

/// The rank of character `i` when the characters are ordered by appearances, most
/// first, keeping their order among equal counts (rank 1 is the first).
pub open spec fn appearance_rank(counts: Seq<u32>, i: int) -> nat {
    1 + count_greater(counts, counts[i], counts.len() as int) + count_equal(counts, counts[i], i)
}

/// The role a character earns: protagonist with at least `protagonist_min`
/// appearances and a rank of 1 or 2; major with at least `major_min` appearances, or
/// a rank of 3 to 5 and some appearance; supporting with 2 or more; minor otherwise.
pub open spec fn earned_role(appearances: u32, rank: nat, protagonist_min: u32, major_min: u32) -> Seq<char> {
    if appearances >= protagonist_min && rank <= 2 {
        "protagonist"@
    } else if appearances >= major_min || (3 <= rank <= 5 && appearances > 0) {
        "major"@
    } else if appearances >= 2 {
        "supporting"@
    } else {
        "minor"@
    }
}

/// The number of roles among the first `n` equal to `r`.
pub open spec fn roles_equal(roles: Seq<Seq<char>>, r: Seq<char>, n: int) -> nat
    decreases n,
{
    if n <= 0 {
        0
    } else {
        roles_equal(roles, r, n - 1) + if roles[n - 1] == r {
            1nat
        } else {
            0nat
        }
    }
}

/// The number of positions among the first `n` where the two lists differ.
pub open spec fn roles_changed(old_roles: Seq<Seq<char>>, new_roles: Seq<Seq<char>>, n: int) -> nat
    decreases n,
{
    if n <= 0 {
        0
    } else {
        roles_changed(old_roles, new_roles, n - 1) + if old_roles[n - 1] != new_roles[n - 1] {
            1nat
        } else {
            0nat
        }
    }
}

proof fn lemma_count_bounds(counts: Seq<u32>, c: u32, n: int)
    requires
        0 <= n <= counts.len(),
    ensures
        count_greater(counts, c, n) <= n,
        count_equal(counts, c, n) <= n,
    decreases n,
{
    if n > 0 {
        lemma_count_bounds(counts, c, n - 1);
    }
}

proof fn lemma_roles_bounds(a: Seq<Seq<char>>, b: Seq<Seq<char>>, r: Seq<char>, n: int)
    requires
        0 <= n,
    ensures
        roles_equal(b, r, n) <= n,
        roles_changed(a, b, n) <= n,
    decreases n,
{
    if n > 0 {
        lemma_roles_bounds(a, b, r, n - 1);
    }
}

fn role_name(appearances: u32, rank: u64, protagonist_min: u32, major_min: u32) -> (res:
    &'static str)
    ensures
        res@ == earned_role(appearances, rank as nat, protagonist_min, major_min),
{
    if appearances >= protagonist_min && rank <= 2 {
        "protagonist"
    } else if appearances >= major_min || (rank >= 3 && rank <= 5 && appearances > 0) {
        "major"
    } else if appearances >= 2 {
        "supporting"
    } else {
        "minor"
    }
}

/// The roles the characters earn from their appearance counts, and how many roles
/// changed from `current_roles` and how many of each role there are.
pub fn update_character_roles(
    current_roles: &[String],
    appearances: &[u32],
    protagonist_min: u32,
    major_min: u32,
) -> (res: (Vec<&'static str>, RoleUpdateResult))
    requires
        current_roles@.len() == appearances@.len(),
        appearances@.len() <= u32::MAX,
    ensures
        res.0@.len() == appearances@.len(),
        forall|i: int|
            0 <= i < appearances@.len() ==> (#[trigger] res.0@[i])@ == earned_role(
                appearances@[i],
                appearance_rank(appearances@, i),
                protagonist_min,
                major_min,
            ),
        res.1.updated_count == roles_changed(
            current_roles@.map_values(|s: String| s@),
            res.0@.map_values(|s: &str| s@),
            appearances@.len() as int,
        ),
        res.1.protagonist_count == roles_equal(
            res.0@.map_values(|s: &str| s@),
            "protagonist"@,
            appearances@.len() as int,
        ),
        res.1.major_count == roles_equal(res.0@.map_values(|s: &str| s@), "major"@, appearances@.len() as int),
        res.1.supporting_count == roles_equal(
            res.0@.map_values(|s: &str| s@),
            "supporting"@,
            appearances@.len() as int,
        ),
        res.1.minor_count == roles_equal(res.0@.map_values(|s: &str| s@), "minor"@, appearances@.len() as int),
{
    let n = appearances.len();
    let mut roles: Vec<&'static str> = Vec::new();
    let ghost olds = current_roles@.map_values(|s: String| s@);
    let mut result = RoleUpdateResult {
        updated_count: 0,
        protagonist_count: 0,
        major_count: 0,
        supporting_count: 0,
        minor_count: 0,
    };
    proof {
        reveal_strlit("protagonist");
        reveal_strlit("major");
        reveal_strlit("supporting");
        reveal_strlit("minor");
    }
    let mut i: usize = 0;
    while i < n
        invariant
            i <= n,
            n == appearances@.len(),
            n <= u32::MAX,
            current_roles@.len() == n,
            olds == current_roles@.map_values(|s: String| s@),
            roles@.len() == i,
            forall|k: int|
                0 <= k < i ==> (#[trigger] roles@[k])@ == earned_role(
                    appearances@[k],
                    appearance_rank(appearances@, k),
                    protagonist_min,
                    major_min,
                ),
            result.updated_count == roles_changed(olds, roles@.map_values(|s: &str| s@), i as int),
            result.protagonist_count == roles_equal(roles@.map_values(|s: &str| s@), "protagonist"@, i as int),
            result.major_count == roles_equal(roles@.map_values(|s: &str| s@), "major"@, i as int),
            result.supporting_count == roles_equal(roles@.map_values(|s: &str| s@), "supporting"@, i as int),
            result.minor_count == roles_equal(roles@.map_values(|s: &str| s@), "minor"@, i as int),
        decreases n - i,
    {
        let c = appearances[i];
        let mut greater: usize = 0;
        let mut earlier_equal: usize = 0;
        let mut j: usize = 0;
        while j < n
            invariant
                j <= n,
                n == appearances@.len(),
                i < n,
                c == appearances@[i as int],
                greater == count_greater(appearances@, c, j as int),
                earlier_equal == count_equal(appearances@, c, if j < i { j as int } else { i as int }),
            decreases n - j,
        {
            proof {
                lemma_count_bounds(appearances@, c, j as int);
                lemma_count_bounds(appearances@, c, i as int);
            }
            if appearances[j] > c {
                greater = greater + 1;
            }
            if j < i && appearances[j] == c {
                earlier_equal = earlier_equal + 1;
            }
            j = j + 1;
        }
        proof {
            lemma_count_bounds(appearances@, c, n as int);
            lemma_count_bounds(appearances@, c, i as int);
        }
        let rank: u64 = 1 + greater as u64 + earlier_equal as u64;
        let role = role_name(c, rank, protagonist_min, major_min);
        let ghost before = roles@.map_values(|s: &str| s@);
        proof {
            reveal_strlit("protagonist");
            reveal_strlit("major");
            reveal_strlit("supporting");
            reveal_strlit("minor");
            assert("major"@[1] != "minor"@[1]);
            assert("major"@.len() != "protagonist"@.len() && "major"@.len() != "supporting"@.len());
            assert("minor"@.len() != "protagonist"@.len() && "minor"@.len() != "supporting"@.len());
            assert("protagonist"@.len() != "supporting"@.len());
            lemma_roles_bounds(olds, before, "protagonist"@, i as int);
            lemma_roles_bounds(olds, before, "major"@, i as int);
            lemma_roles_bounds(olds, before, "supporting"@, i as int);
            lemma_roles_bounds(olds, before, "minor"@, i as int);
        }
        if !str_eq(current_roles[i].as_str(), role) {
            result.updated_count = result.updated_count + 1;
        }
        if str_eq(role, "protagonist") {
            result.protagonist_count = result.protagonist_count + 1;
        } else if str_eq(role, "major") {
            result.major_count = result.major_count + 1;
        } else if str_eq(role, "supporting") {
            result.supporting_count = result.supporting_count + 1;
        } else {
            result.minor_count = result.minor_count + 1;
        }
        roles.push(role);
        proof {
            let after = roles@.map_values(|s: &str| s@);
            assert(after.take(i as int) =~= before.take(i as int));
            assert forall|r: Seq<char>| roles_equal(after, r, i as int) == roles_equal(before, r, i as int) by {
                lemma_roles_prefix(after, before, r, i as int);
            }
            lemma_changed_prefix(olds, after, before, i as int);
            assert(after[i as int] == role@);
        }
        i = i + 1;
    }
    (roles, result)
}

proof fn lemma_roles_prefix(a: Seq<Seq<char>>, b: Seq<Seq<char>>, r: Seq<char>, n: int)
    requires
        0 <= n <= a.len(),
        n <= b.len(),
        forall|k: int| 0 <= k < n ==> a[k] == b[k],
    ensures
        roles_equal(a, r, n) == roles_equal(b, r, n),
    decreases n,
{
    if n > 0 {
        lemma_roles_prefix(a, b, r, n - 1);
    }
}

proof fn lemma_changed_prefix(o: Seq<Seq<char>>, a: Seq<Seq<char>>, b: Seq<Seq<char>>, n: int)
    requires
        0 <= n <= a.len(),
        n <= b.len(),
        forall|k: int| 0 <= k < n ==> a[k] == b[k],
    ensures
        roles_changed(o, a, n) == roles_changed(o, b, n),
    decreases n,
{
    if n > 0 {
        lemma_changed_prefix(o, a, b, n - 1);
    }
}

// ---------------------------------------------------------------------------
// The story blueprint
// ---------------------------------------------------------------------------

pub open spec fn opt_text(o: Option<String>) -> Option<Seq<char>> {
    match o {
        Some(s) => Some(s@),
        None => None,
    }
}

pub open spec fn texts(v: Seq<String>) -> Seq<Seq<char>> {
    v.map_values(|s: String| s@)
}

/// The key events of a chapter are ordered by: their order in the chapter, with
/// unknown orders (zero or less) after the known ones.
pub open spec fn order_key(order: i32) -> int {
    if order > 0 {
        order as int
    } else {
        0x1_0000_0000 + order
    }
}

/// The position before which an element of key `k` goes in a list sorted by key: after
/// every element whose key is at most `k`.
pub open spec fn first_greater<V>(list: Seq<(int, V)>, k: int) -> int
    decreases list.len(),
{
    if list.len() == 0 {
        0
    } else if list[0].0 > k {
        0
    } else {
        1 + first_greater(list.drop_first(), k)
    }
}

/// The list sorted by key, keeping the order of elements of equal key (insertion
/// sort).
pub open spec fn sorted_by_key<V>(list: Seq<(int, V)>) -> Seq<(int, V)>
    decreases list.len(),
{
    if list.len() == 0 {
        list
    } else {
        let s = sorted_by_key(list.drop_last());
        s.insert(first_greater(s, list.last().0), list.last())
    }
}

/// The name of the character with id `id` (the last one listed with it).
pub open spec fn character_name(chars: Seq<(String, String)>, id: Seq<char>) -> Option<Seq<char>>
    decreases chars.len(),
{
    if chars.len() == 0 {
        None
    } else if chars.last().0@ == id {
        Some(chars.last().1@)
    } else {
        character_name(chars.drop_last(), id)
    }
}

/// The names of the characters with the given ids, skipping unknown ids.
pub open spec fn character_names(chars: Seq<(String, String)>, ids: Seq<Seq<char>>) -> Seq<Seq<char>>
    decreases ids.len(),
{
    if ids.len() == 0 {
        Seq::<Seq<char>>::empty()
    } else {
        let rest = character_names(chars, ids.drop_last());
        match character_name(chars, ids.last()) {
            Some(n) => rest.push(n),
            None => rest,
        }
    }
}

/// An event on the blueprint as text: id, title, description, importance, whether it
/// is a turning point, the characters' names, and the time marker.
pub type EventView = (Seq<char>, Seq<char>, Option<Seq<char>>, Seq<char>, bool, Seq<Seq<char>>, Option<Seq<char>>);

pub open spec fn blueprint_event_view(b: BlueprintEvent) -> EventView {
    (b.id@, b.title@, opt_text(b.description), b.importance@, b.is_turning_point, texts(b.characters_involved@), opt_text(b.time_marker))
}

/// An event as it appears on the blueprint: a critical event is a turning point, and
/// the characters involved are named.
pub open spec fn event_on_blueprint(e: EventInfo, chars: Seq<(String, String)>) -> EventView {
    (e.id@, e.title@, opt_text(e.description), e.importance@, e.importance@ == "critical"@, character_names(chars, texts(e.characters_involved@)), opt_text(e.time_marker))
}

/// The events of chapter `cid` with their ordering keys, in the order given.
pub open spec fn chapter_events(events: Seq<EventInfo>, chars: Seq<(String, String)>, cid: Seq<char>) -> Seq<(int, EventView)>
    decreases events.len(),
{
    if events.len() == 0 {
        Seq::empty()
    } else {
        let rest = chapter_events(events.drop_last(), chars, cid);
        let e = events.last();
        if opt_text(e.chapter_id) == Some(cid) {
            rest.push((order_key(e.order_in_chapter), event_on_blueprint(e, chars)))
        } else {
            rest
        }
    }
}

/// A chapter on the blueprint as text: id, index, title, whether analyzed, events.
pub type ChapterView = (Seq<char>, nat, Option<Seq<char>>, bool, Seq<EventView>);

pub open spec fn keyed_views(l: Seq<(int, EventView)>) -> Seq<EventView> {
    l.map_values(|p: (int, EventView)| p.1)
}

/// Chapter `i` of the list as it appears on the blueprint: its events ordered by key,
/// none where an earlier chapter has the same id (the events went to that one).
pub open spec fn chapter_on_blueprint(
    chapters: Seq<crate::chapters::ChapterListItem>,
    events: Seq<EventInfo>,
    chars: Seq<(String, String)>,
    i: int,
) -> ChapterView {
    let c = chapters[i];
    let evs = if exists|j: int| 0 <= j < i && #[trigger] chapters[j].id@ == c.id@ {
        Seq::<EventView>::empty()
    } else {
        keyed_views(sorted_by_key(chapter_events(events, chars, c.id@)))
    };
    (c.id@, c.index as nat, opt_text(c.title), c.analyzed, evs)
}

/// The chapters on the blueprint keyed by index, in the order given.
pub open spec fn keyed_chapters(
    chapters: Seq<crate::chapters::ChapterListItem>,
    events: Seq<EventInfo>,
    chars: Seq<(String, String)>,
) -> Seq<(int, ChapterView)> {
    Seq::new(chapters.len(), |i: int| (chapters[i].index as int, chapter_on_blueprint(chapters, events, chars, i)))
}

pub open spec fn chapter_blueprint_view(c: ChapterBlueprint) -> ChapterView {
    (c.id@, c.index as nat, opt_text(c.title), c.analyzed, c.events@.map_values(|b: BlueprintEvent| blueprint_event_view(b)))
}

/// The number of analyzed chapters among the first `n`.
pub open spec fn analyzed_count(chapters: Seq<crate::chapters::ChapterListItem>, n: int) -> nat
    decreases n,
{
    if n <= 0 {
        0
    } else {
        analyzed_count(chapters, n - 1) + if chapters[n - 1].analyzed {
            1nat
        } else {
            0nat
        }
    }
}

proof fn lemma_first_greater<V>(list: Seq<(int, V)>, k: int, p: int)
    requires
        0 <= p <= list.len(),
        forall|j: int| 0 <= j < p ==> list[j].0 <= k,
        p == list.len() || list[p].0 > k,
    ensures
        first_greater(list, k) == p,
    decreases p,
{
    if p > 0 {
        lemma_first_greater(list.drop_first(), k, p - 1);
    }
}

proof fn lemma_first_greater_bound<V>(list: Seq<(int, V)>, k: int)
    ensures
        0 <= first_greater(list, k) <= list.len(),
    decreases list.len(),
{
    if list.len() > 0 {
        lemma_first_greater_bound(list.drop_first(), k);
    }
}

proof fn lemma_sorted_len<V>(list: Seq<(int, V)>)
    ensures
        sorted_by_key(list).len() == list.len(),
    decreases list.len(),
{
    if list.len() > 0 {
        lemma_sorted_len(list.drop_last());
        lemma_first_greater_bound(sorted_by_key(list.drop_last()), list.last().0);
    }
}

fn copy_opt(o: &Option<String>) -> (res: Option<String>)
    ensures
        opt_text(res) == opt_text(*o),
{
    match o {
        Some(s) => Some(String::from_str(s.as_str())),
        None => None,
    }
}

fn name_of(chars: &[(String, String)], id: &str) -> (res: Option<String>)
    ensures
        opt_text(res) == character_name(chars@, id@),
{
    let mut k = chars.len();
    proof {
        assert(chars@.take(k as int) == chars@);
    }
    while k > 0
        invariant
            k <= chars@.len(),
            character_name(chars@, id@) == character_name(chars@.take(k as int), id@),
        decreases k,
    {
        proof {
            assert(chars@.take(k as int).drop_last() == chars@.take(k - 1));
            assert(chars@.take(k as int).last() == chars@[k - 1]);
        }
        if str_eq(chars[k - 1].0.as_str(), id) {
            return Some(String::from_str(chars[k - 1].1.as_str()));
        }
        k = k - 1;
    }
    None
}

fn blueprint_event(e: &EventInfo, chars: &[(String, String)]) -> (res: BlueprintEvent)
    ensures
        blueprint_event_view(res) == event_on_blueprint(*e, chars@),
{
    let ids = &e.characters_involved;
    let mut names: Vec<String> = Vec::new();
    let mut i: usize = 0;
    while i < ids.len()
        invariant
            i <= ids@.len(),
            texts(names@) == character_names(chars@, texts(ids@).take(i as int)),
        decreases ids.len() - i,
    {
        proof {
            assert(texts(ids@).take(i + 1).drop_last() == texts(ids@).take(i as int));
            assert(texts(ids@).take(i + 1).last() == ids@[i as int]@);
        }
        match name_of(chars, ids[i].as_str()) {
            Some(n) => {
                let ghost before = names@;
                names.push(n);
                proof {
                    assert(texts(names@) =~= texts(before).push(n@));
                }
            },
            None => {},
        }
        i = i + 1;
    }
    proof {
        assert(texts(ids@).take(i as int) == texts(ids@));
        reveal_strlit("critical");
    }
    BlueprintEvent {
        id: String::from_str(e.id.as_str()),
        title: String::from_str(e.title.as_str()),
        description: copy_opt(&e.description),
        importance: String::from_str(e.importance.as_str()),
        is_turning_point: str_eq(e.importance.as_str(), "critical"),
        characters_involved: names,
        time_marker: copy_opt(&e.time_marker),
    }
}

fn key_of(order: i32) -> (res: i64)
    ensures
        res == order_key(order),
{
    if order > 0 {
        order as i64
    } else {
        0x1_0000_0000i64 + order as i64
    }
}

/// The keyed events held in parallel lists.
pub open spec fn keyed(keys: Seq<i64>, items: Seq<BlueprintEvent>) -> Seq<(int, EventView)> {
    Seq::new(keys.len(), |j: int| (keys[j] as int, blueprint_event_view(items[j])))
}

/// The events of a chapter, ordered by their order in the chapter.
fn sorted_chapter_events(events: &[EventInfo], chars: &[(String, String)], cid: &str) -> (res: Vec<BlueprintEvent>)
    ensures
        res@.map_values(|b: BlueprintEvent| blueprint_event_view(b)) == keyed_views(
            sorted_by_key(chapter_events(events@, chars@, cid@)),
        ),
{
    let mut keys: Vec<i64> = Vec::new();
    let mut items: Vec<BlueprintEvent> = Vec::new();
    let mut i: usize = 0;
    proof {
        assert(keyed(keys@, items@) =~= Seq::<(int, EventView)>::empty());
        assert(events@.take(0) =~= Seq::<EventInfo>::empty());
    }
    while i < events.len()
        invariant
            i <= events@.len(),
            keys@.len() == items@.len(),
            keyed(keys@, items@) == sorted_by_key(chapter_events(events@.take(i as int), chars@, cid@)),
        decreases events.len() - i,
    {
        let ghost sv = keyed(keys@, items@);
        let ghost ce = chapter_events(events@.take(i as int), chars@, cid@);
        proof {
            assert(events@.take(i + 1).drop_last() == events@.take(i as int));
            assert(events@.take(i + 1).last() == events@[i as int]);
        }
        let e = &events[i];
        let belongs = match &e.chapter_id {
            Some(c) => str_eq(c.as_str(), cid),
            None => false,
        };
        if belongs {
            let k = key_of(e.order_in_chapter);
            let mut p: usize = 0;
            while p < keys.len() && keys[p] <= k
                invariant
                    p <= keys@.len(),
                    forall|j: int| 0 <= j < p ==> keys@[j] <= k,
                decreases keys.len() - p,
            {
                p = p + 1;
            }
            proof {
                assert forall|j: int| 0 <= j < p implies sv[j].0 <= k as int by {
                    assert(sv[j].0 == keys@[j]);
                }
                if p < keys@.len() {
                    assert(sv[p as int].0 == keys@[p as int]);
                }
                lemma_first_greater(sv, k as int, p as int);
            }
            let b = blueprint_event(e, chars);
            let ghost x = (k as int, blueprint_event_view(b));
            keys.insert(p, k);
            items.insert(p, b);
            proof {
                assert(x == (order_key(e.order_in_chapter), event_on_blueprint(*e, chars@)));
                assert(chapter_events(events@.take(i + 1), chars@, cid@) == ce.push(x));
                assert(ce.push(x).drop_last() == ce);
                assert(keyed(keys@, items@) =~= sv.insert(p as int, x));
            }
        } else {
            proof {
                assert(chapter_events(events@.take(i + 1), chars@, cid@) == ce);
            }
        }
        i = i + 1;
    }
    proof {
        assert(events@.take(i as int) == events@);
        assert(items@.map_values(|b: BlueprintEvent| blueprint_event_view(b)) =~= keyed_views(
            keyed(keys@, items@),
        ));
    }
    items
}

/// The keyed chapters held in parallel lists.
pub open spec fn keyed_blueprints(keys: Seq<i64>, items: Seq<ChapterBlueprint>) -> Seq<(int, ChapterView)> {
    Seq::new(keys.len(), |j: int| (keys[j] as int, chapter_blueprint_view(items[j])))
}

pub open spec fn chapter_views(l: Seq<(int, ChapterView)>) -> Seq<ChapterView> {
    l.map_values(|p: (int, ChapterView)| p.1)
}

/// The story blueprint of a book: its chapters ordered by index (keeping the given
/// order among equal indexes), each with its events ordered within the chapter, and
/// the numbers of chapters and of analyzed chapters.
pub fn story_blueprint(
    book_id: String,
    chapters: &[crate::chapters::ChapterListItem],
    events: &[EventInfo],
    characters: &[(String, String)],
) -> (res: BlueprintData)
    requires
        chapters@.len() <= u32::MAX,
    ensures
        res.book_id == book_id,
        res.total_chapters == chapters@.len(),
        res.analyzed_chapters == analyzed_count(chapters@, chapters@.len() as int),
        res.chapters@.map_values(|c: ChapterBlueprint| chapter_blueprint_view(c)) == chapter_views(
            sorted_by_key(keyed_chapters(chapters@, events@, characters@)),
        ),
{
    let ghost all = keyed_chapters(chapters@, events@, characters@);
    let mut keys: Vec<i64> = Vec::new();
    let mut items: Vec<ChapterBlueprint> = Vec::new();
    let mut analyzed: u32 = 0;
    let mut i: usize = 0;
    proof {
        assert(keyed_blueprints(keys@, items@) =~= Seq::<(int, ChapterView)>::empty());
        assert(all.take(0) =~= Seq::<(int, ChapterView)>::empty());
    }
    while i < chapters.len()
        invariant
            i <= chapters@.len(),
            chapters@.len() <= u32::MAX,
            all == keyed_chapters(chapters@, events@, characters@),
            keys@.len() == items@.len(),
            keyed_blueprints(keys@, items@) == sorted_by_key(all.take(i as int)),
            analyzed == analyzed_count(chapters@, i as int),
            analyzed <= i,
        decreases chapters.len() - i,
    {
        let ghost sv = keyed_blueprints(keys@, items@);
        let c = &chapters[i];
        let mut dup = false;
        let mut j: usize = 0;
        while j < i
            invariant
                j <= i,
                i < chapters@.len(),
                c == chapters@[i as int],
                dup <==> exists|m: int| 0 <= m < j && #[trigger] chapters@[m].id@ == c.id@,
            decreases i - j,
        {
            if str_eq(chapters[j].id.as_str(), c.id.as_str()) {
                dup = true;
            }
            j = j + 1;
        }
        let evs: Vec<BlueprintEvent> = if dup {
            Vec::new()
        } else {
            sorted_chapter_events(events, characters, c.id.as_str())
        };
        let bp = ChapterBlueprint {
            id: String::from_str(c.id.as_str()),
            index: c.index,
            title: copy_opt(&c.title),
            analyzed: c.analyzed,
            events: evs,
        };
        let ghost x = (c.index as int, chapter_blueprint_view(bp));
        proof {
            assert(x == all[i as int]) by {
                if dup {
                    assert(bp.events@.map_values(|b: BlueprintEvent| blueprint_event_view(b)) =~= Seq::<EventView>::empty());
                }
            }
            assert(all.take(i + 1).drop_last() == all.take(i as int));
            assert(all.take(i + 1).last() == x);
        }
        let k = c.index as i64;
        let mut p: usize = 0;
        while p < keys.len() && keys[p] <= k
            invariant
                p <= keys@.len(),
                forall|m: int| 0 <= m < p ==> keys@[m] <= k,
            decreases keys.len() - p,
        {
            p = p + 1;
        }
        proof {
            assert forall|m: int| 0 <= m < p implies sv[m].0 <= k as int by {
                assert(sv[m].0 == keys@[m]);
            }
            if p < keys@.len() {
                assert(sv[p as int].0 == keys@[p as int]);
            }
            lemma_first_greater(sv, k as int, p as int);
        }
        if c.analyzed {
            analyzed = analyzed + 1;
        }
        keys.insert(p, k);
        items.insert(p, bp);
        proof {
            assert(keyed_blueprints(keys@, items@) =~= sv.insert(p as int, x));
        }
        i = i + 1;
    }
    proof {
        assert(all.take(i as int) == all);
        assert(items@.map_values(|c: ChapterBlueprint| chapter_blueprint_view(c)) =~= chapter_views(
            keyed_blueprints(keys@, items@),
        ));
    }
    BlueprintData {
        book_id,
        total_chapters: chapters.len() as u32,
        analyzed_chapters: analyzed,
        chapters: items,
    }
}

} // verus!
