//! Named entities: merging what the segments found into one grouped list.
//!
//! A confidence is a whole number of millionths: `900_000` stands for 0.9.

use crate::confidence::percent_text;
use crate::confidence::push_percent;
use crate::text::contains_text;
use crate::text::join;
use crate::text::str_eq;
use crate::text::joined;
use crate::text::views;
use vstd::prelude::*;

verus! {

/// One named entity found in a segment.
#[derive(Debug, PartialEq, Eq)]
pub struct Entity {
    pub text: String,
    pub entity_type: String,
    /// Confidence in millionths.
    pub score: u32,
    pub begin_offset: i32,
    pub end_offset: i32,
}

/// The entities that one detection pass reported.
#[derive(Debug, PartialEq, Eq)]
pub struct EntityData {
    pub entities: Vec<Entity>,
}

/// The entities of one type, best first.
#[derive(Debug, PartialEq, Eq)]
pub struct EntityGroup {
    pub entity_type: String,
    pub entities: Vec<Entity>,
}

impl Entity {
    /// A copy of this entity.
    pub fn duplicate(&self) -> (r: Entity)
        ensures
            r == *self,
    {
        Entity {
            text: self.text.clone(),
            entity_type: self.entity_type.clone(),
            score: self.score,
            begin_offset: self.begin_offset,
            end_offset: self.end_offset,
        }
    }
}

/// Two entities are the same finding when text and type agree.
pub open spec fn same_key(a: Entity, b: Entity) -> bool {
    a.text@ == b.text@ && a.entity_type@ == b.entity_type@
}

/// The entities of one segment's passes, in order.
pub open spec fn entities_of_chunk(chunk: Seq<EntityData>) -> Seq<Entity>
    decreases chunk.len(),
{
    if chunk.len() == 0 {
        Seq::empty()
    } else {
        entities_of_chunk(chunk.drop_last()) + chunk.last().entities@
    }
}

/// The entities of all segments, in segment order.
pub open spec fn all_entities(chunks: Seq<Vec<EntityData>>) -> Seq<Entity>
    decreases chunks.len(),
{
    if chunks.len() == 0 {
        Seq::empty()
    } else {
        all_entities(chunks.drop_last()) + entities_of_chunk(chunks.last()@)
    }
}

/// The index of the first entry of `uniq` with the key of `e`; `uniq.len()` if there is none.
pub open spec fn position(uniq: Seq<Entity>, e: Entity) -> int
    decreases uniq.len(),
{
    if uniq.len() == 0 {
        0
    } else if same_key(uniq[0], e) {
        0
    } else {
        1 + position(uniq.drop_first(), e)
    }
}

/// `uniq` after it has seen `e`: a new key is added at the end, a known key keeps its place
/// and takes `e` only where `e` is strictly more confident.
pub open spec fn absorb(uniq: Seq<Entity>, e: Entity) -> Seq<Entity> {
    let k = position(uniq, e);
    if k == uniq.len() {
        uniq.push(e)
    } else if e.score > uniq[k].score {
        uniq.update(k, e)
    } else {
        uniq
    }
}

/// One entity for each key of `all`, in the order in which the keys first occur.
pub open spec fn dedup(all: Seq<Entity>) -> Seq<Entity>
    decreases all.len(),
{
    if all.len() == 0 {
        Seq::empty()
    } else {
        absorb(dedup(all.drop_last()), all.last())
    }
}

/// The distinct types of `uniq`, in the order in which they first occur.
pub open spec fn types_of(uniq: Seq<Entity>) -> Seq<Seq<char>>
    decreases uniq.len(),
{
    if uniq.len() == 0 {
        Seq::empty()
    } else {
        let before = types_of(uniq.drop_last());
        if before.contains(uniq.last().entity_type@) {
            before
        } else {
            before.push(uniq.last().entity_type@)
        }
    }
}

/// The entries of `uniq` that have type `t`, in order.
pub open spec fn of_type(uniq: Seq<Entity>, t: Seq<char>) -> Seq<Entity>
    decreases uniq.len(),
{
    if uniq.len() == 0 {
        Seq::empty()
    } else if uniq.last().entity_type@ == t {
        of_type(uniq.drop_last(), t).push(uniq.last())
    } else {
        of_type(uniq.drop_last(), t)
    }
}

/// `sorted` with `e` placed behind every entry that is at least as confident.
pub open spec fn insert_by_score(sorted: Seq<Entity>, e: Entity) -> Seq<Entity>
    decreases sorted.len(),
{
    if sorted.len() == 0 {
        seq![e]
    } else if sorted.last().score >= e.score {
        sorted.push(e)
    } else {
        insert_by_score(sorted.drop_last(), e).push(sorted.last())
    }
}

/// `group` by falling confidence; entries of equal confidence keep their order.
pub open spec fn by_score(group: Seq<Entity>) -> Seq<Entity>
    decreases group.len(),
{
    if group.len() == 0 {
        Seq::empty()
    } else {
        insert_by_score(by_score(group.drop_last()), group.last())
    }
}

/// What a group holds: its type and its entries.
pub open spec fn group_view(g: EntityGroup) -> (Seq<char>, Seq<Entity>) {
    (g.entity_type@, g.entities@)
}

/// The groups of `uniq`: one for each type in order of first occurrence, each by falling
/// confidence.
pub open spec fn groups_of(uniq: Seq<Entity>) -> Seq<(Seq<char>, Seq<Entity>)> {
    types_of(uniq).map_values(|t: Seq<char>| (t, by_score(of_type(uniq, t))))
}

/// The grouped entity list of an analysis.
pub open spec fn combined_entities(chunks: Seq<Vec<EntityData>>) -> Seq<(Seq<char>, Seq<Entity>)> {
    groups_of(dedup(all_entities(chunks)))
}

/// Collects the entities of all segments, in segment order.
pub fn flatten_entities(chunks: &[Vec<EntityData>]) -> (all: Vec<Entity>)
    ensures
        all@ == all_entities(chunks@),
{
    let mut all: Vec<Entity> = Vec::new();
    let mut i: usize = 0;
    while i < chunks.len()
        invariant
            i <= chunks.len(),
            all@ == all_entities(chunks@.take(i as int)),
        decreases chunks.len() - i,
    {
        let chunk = &chunks[i];
        let ghost base = all@;
        let mut j: usize = 0;
        while j < chunk.len()
            invariant
                j <= chunk.len(),
                all@ == base + entities_of_chunk(chunk@.take(j as int)),
            decreases chunk.len() - j,
        {
            let found = &chunk[j].entities;
            let ghost inner = all@;
            let mut k: usize = 0;
            while k < found.len()
                invariant
                    k <= found.len(),
                    all@ == inner + found@.take(k as int),
                decreases found.len() - k,
            {
                all.push(found[k].duplicate());
                assert(found@.take(k + 1) =~= found@.take(k as int).push(found@[k as int]));
                k += 1;
            }
            assert(found@.take(found.len() as int) =~= found@);
            assert(chunk@.take(j + 1).drop_last() =~= chunk@.take(j as int));
            assert(all@ =~= base + entities_of_chunk(chunk@.take(j + 1)));
            j += 1;
        }
        assert(chunk@.take(chunk.len() as int) =~= chunk@);
        assert(chunks@.take(i + 1).drop_last() =~= chunks@.take(i as int));
        i += 1;
    }
    assert(chunks@.take(chunks.len() as int) =~= chunks@);
    all
}

/// Finds the entry of `uniq` that has the key of `e`.
pub fn find_key(uniq: &Vec<Entity>, e: &Entity) -> (k: usize)
    ensures
        k == position(uniq@, *e),
        k <= uniq.len(),
{
    let mut k: usize = 0;
    assert(uniq@.skip(0) =~= uniq@);
    while k < uniq.len()
        invariant
            k <= uniq.len(),
            position(uniq@, *e) == k + position(uniq@.skip(k as int), *e),
        decreases uniq.len() - k,
    {
        if str_eq(uniq[k].text.as_str(), e.text.as_str()) && str_eq(
            uniq[k].entity_type.as_str(),
            e.entity_type.as_str(),
        ) {
            return k;
        }
        assert(uniq@.skip(k as int).drop_first() =~= uniq@.skip(k + 1));
        k += 1;
    }
    k
}

/// Keeps one entity for each (text, type) pair: the most confident one, and of several
/// equally confident ones the first.
pub fn dedup_entities(all: &Vec<Entity>) -> (uniq: Vec<Entity>)
    ensures
        uniq@ == dedup(all@),
{
    let mut uniq: Vec<Entity> = Vec::new();
    let mut i: usize = 0;
    while i < all.len()
        invariant
            i <= all.len(),
            uniq@ == dedup(all@.take(i as int)),
        decreases all.len() - i,
    {
        assert(all@.take(i + 1).drop_last() =~= all@.take(i as int));
        let k = find_key(&uniq, &all[i]);
        if k == uniq.len() {
            uniq.push(all[i].duplicate());
        } else if all[i].score > uniq[k].score {
            uniq.set(k, all[i].duplicate());
        }
        i += 1;
    }
    assert(all@.take(all.len() as int) =~= all@);
    uniq
}

/// The distinct types of `uniq`, in the order in which they first occur.
pub fn distinct_types(uniq: &Vec<Entity>) -> (types: Vec<String>)
    ensures
        views(types@) == types_of(uniq@),
{
    let mut types: Vec<String> = Vec::new();
    let mut i: usize = 0;
    assert(views(types@) =~= types_of(uniq@.take(0)));
    while i < uniq.len()
        invariant
            i <= uniq.len(),
            views(types@) == types_of(uniq@.take(i as int)),
        decreases uniq.len() - i,
    {
        assert(uniq@.take(i + 1).drop_last() =~= uniq@.take(i as int));
        if !contains_text(&types, uniq[i].entity_type.as_str()) {
            let ghost before = views(types@);
            types.push(uniq[i].entity_type.clone());
            assert(views(types@) =~= before.push(uniq@[i as int].entity_type@));
        }
        i += 1;
    }
    assert(uniq@.take(uniq.len() as int) =~= uniq@);
    types
}

/// The entries of `uniq` that have type `t`, in order.
pub fn select_type(uniq: &Vec<Entity>, t: &str) -> (group: Vec<Entity>)
    ensures
        group@ == of_type(uniq@, t@),
{
    let mut group: Vec<Entity> = Vec::new();
    let mut i: usize = 0;
    while i < uniq.len()
        invariant
            i <= uniq.len(),
            group@ == of_type(uniq@.take(i as int), t@),
        decreases uniq.len() - i,
    {
        assert(uniq@.take(i + 1).drop_last() =~= uniq@.take(i as int));
        if str_eq(uniq[i].entity_type.as_str(), t) {
            group.push(uniq[i].duplicate());
        }
        i += 1;
    }
    assert(uniq@.take(uniq.len() as int) =~= uniq@);
    group
}

/// Placing `e` at index `j` is `insert_by_score` when every entry from `j` on is less
/// confident than `e` and the entry before `j`, if any, is not.
proof fn lemma_insert_at(sorted: Seq<Entity>, e: Entity, j: int)
    requires
        0 <= j <= sorted.len(),
        forall|i: int| j <= i < sorted.len() ==> sorted[i].score < e.score,
        j > 0 ==> sorted[j - 1].score >= e.score,
    ensures
        insert_by_score(sorted, e) == sorted.insert(j, e),
    decreases sorted.len() - j,
{
    if j == sorted.len() {
        assert(sorted.insert(j, e) =~= sorted.push(e));
    } else {
        lemma_insert_at(sorted.drop_last(), e, j);
        assert(sorted.insert(j, e) =~= sorted.drop_last().insert(j, e).push(sorted.last()));
    }
}

/// Orders a group by falling confidence; entries of equal confidence keep their order.
pub fn sort_by_score(group: &Vec<Entity>) -> (sorted: Vec<Entity>)
    ensures
        sorted@ == by_score(group@),
{
    let mut sorted: Vec<Entity> = Vec::new();
    let mut i: usize = 0;
    while i < group.len()
        invariant
            i <= group.len(),
            sorted@ == by_score(group@.take(i as int)),
        decreases group.len() - i,
    {
        assert(group@.take(i + 1).drop_last() =~= group@.take(i as int));
        let score = group[i].score;
        let mut j: usize = sorted.len();
        while j > 0 && sorted[j - 1].score < score
            invariant
                j <= sorted.len(),
                forall|k: int| j <= k < sorted.len() ==> sorted@[k].score < score,
            decreases j,
        {
            j -= 1;
        }
        proof {
            lemma_insert_at(sorted@, group@[i as int], j as int);
        }
        sorted.insert(j, group[i].duplicate());
        i += 1;
    }
    assert(group@.take(group.len() as int) =~= group@);
    sorted
}

/// What a list of groups holds.
pub open spec fn group_views(groups: Seq<EntityGroup>) -> Seq<(Seq<char>, Seq<Entity>)> {
    groups.map_values(|g: EntityGroup| group_view(g))
}

/// Groups entities that are already one per key: one group for each type, in the order in
/// which the types first occur, each by falling confidence.
pub fn group_entities(uniq: &Vec<Entity>) -> (groups: Vec<EntityGroup>)
    ensures
        group_views(groups@) == groups_of(uniq@),
{
    let types = distinct_types(uniq);
    let mut groups: Vec<EntityGroup> = Vec::new();
    let mut i: usize = 0;
    while i < types.len()
        invariant
            i <= types.len(),
            views(types@) == types_of(uniq@),
            group_views(groups@) =~= groups_of(uniq@).take(i as int),
        decreases types.len() - i,
    {
        let members = select_type(uniq, types[i].as_str());
        let sorted = sort_by_score(&members);
        let ghost before = group_views(groups@);
        let ghost t = types_of(uniq@)[i as int];
        assert(views(types@)[i as int] == types@[i as int]@);
        groups.push(EntityGroup { entity_type: types[i].clone(), entities: sorted });
        assert(group_views(groups@) =~= before.push((t, sorted@)));
        assert(groups_of(uniq@)[i as int] == (t, by_score(of_type(uniq@, t))));
        assert(groups_of(uniq@).take(i + 1) =~= groups_of(uniq@).take(i as int).push(
            groups_of(uniq@)[i as int],
        ));
        i += 1;
    }
    assert(groups_of(uniq@).take(types.len() as int) =~= groups_of(uniq@));
    groups
}

/// Merges the entities of all segments into the grouped list of the analysis.
pub fn combine_entities(chunks: &[Vec<EntityData>]) -> (groups: Vec<EntityGroup>)
    ensures
        group_views(groups@) == combined_entities(chunks@),
{
    let all = flatten_entities(chunks);
    let uniq = dedup_entities(&all);
    group_entities(&uniq)
}

/// The line of one entity in the report.
pub open spec fn entity_line(e: Entity) -> Seq<char> {
    "- "@ + e.text@ + " (confidence: "@ + percent_text(e.score as nat) + ")"@
}

/// The lines of the entities of one group.
pub open spec fn entity_lines(entries: Seq<Entity>) -> Seq<Seq<char>> {
    entries.map_values(|e: Entity| entity_line(e))
}

/// The section of one group in the report: a heading with the type, then one line for each
/// entity.
pub open spec fn group_text(g: (Seq<char>, Seq<Entity>)) -> Seq<char> {
    "### "@ + g.0 + "\n"@ + joined(entity_lines(g.1), "\n"@)
}

/// The named-entities part of the report.
pub open spec fn groups_text(groups: Seq<(Seq<char>, Seq<Entity>)>) -> Seq<char> {
    if groups.len() == 0 {
        "No entities detected"@
    } else {
        joined(groups.map_values(|g: (Seq<char>, Seq<Entity>)| group_text(g)), "\n\n"@)
    }
}

/// The named-entities part of the report for the entities of all segments.
pub open spec fn entities_markdown(chunks: Seq<Vec<EntityData>>) -> Seq<char> {
    groups_text(combined_entities(chunks))
}

/// Prints one group of entities.
pub fn render_group(group: &EntityGroup) -> (r: String)
    ensures
        r@ == group_text(group_view(*group)),
{
    let mut lines: Vec<String> = Vec::new();
    let mut i: usize = 0;
    while i < group.entities.len()
        invariant
            i <= group.entities.len(),
            views(lines@) =~= entity_lines(group.entities@).take(i as int),
        decreases group.entities.len() - i,
    {
        let e = &group.entities[i];
        let mut line = String::from_str("- ");
        line.append(e.text.as_str());
        line.append(" (confidence: ");
        push_percent(&mut line, e.score);
        line.append(")");
        assert(line@ =~= entity_line(*e));
        let ghost before = views(lines@);
        lines.push(line);
        assert(views(lines@) =~= before.push(entity_line(*e)));
        i += 1;
    }
    assert(entity_lines(group.entities@).take(group.entities.len() as int) =~= entity_lines(
        group.entities@,
    ));
    let body = join(&lines, "\n");
    let mut out = String::from_str("### ");
    out.append(group.entity_type.as_str());
    out.append("\n");
    out.append(body.as_str());
    assert(out@ =~= group_text(group_view(*group)));
    out
}

/// Prints the grouped entity list; a list without groups prints as a fixed sentence.
pub fn render_entities(groups: &Vec<EntityGroup>) -> (r: String)
    ensures
        r@ == groups_text(group_views(groups@)),
{
    if groups.len() == 0 {
        return String::from_str("No entities detected");
    }
    let ghost texts = group_views(groups@).map_values(|g: (Seq<char>, Seq<Entity>)| group_text(g));
    let mut sections: Vec<String> = Vec::new();
    let mut i: usize = 0;
    while i < groups.len()
        invariant
            i <= groups.len(),
            texts == group_views(groups@).map_values(|g: (Seq<char>, Seq<Entity>)| group_text(g)),
            views(sections@) =~= texts.take(i as int),
        decreases groups.len() - i,
    {
        let section = render_group(&groups[i]);
        let ghost before = views(sections@);
        sections.push(section);
        assert(views(sections@) =~= before.push(group_text(group_view(groups@[i as int]))));
        assert(texts[i as int] == group_text(group_views(groups@)[i as int]));
        i += 1;
    }
    assert(texts.take(groups.len() as int) =~= texts);
    join(&sections, "\n\n")
}

/// Merges the entities of all segments and prints them: one entity for each text and type,
/// grouped by type, each group by falling confidence.
pub fn format_entities(entities_chunks: &[Vec<EntityData>]) -> (r: String)
    ensures
        r@ == entities_markdown(entities_chunks@),
{
    let groups = combine_entities(entities_chunks);
    render_entities(&groups)
}

} // verus!
