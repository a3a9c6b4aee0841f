//! Skills: instructions that sessions can look up.

use crate::context::mems::{keep_within, lemma_all_fit, total_chars, within};
use crate::context::scope::{skill_scope, user_skill_scope};
use crate::home::{join_path, joined, AppPaths};
use crate::message::MessageSource;
use crate::order::{
    before, lemma_before_irreflexive, lemma_before_total, lemma_before_transitive, text_before,
};
use crate::path::{
    are_same, comes_before, components, lemma_parts_before, lemma_parts_transitive, lineage,
    lineage_of, path_before, same_path,
};
use crate::sorting::{in_order, lemma_inserted_at, orders, sorted};
use crate::text::{
    chars_of, given_or_empty, has_prefix, is_white, join, join_strings, lemma_joined_part,
    lemma_occur_in_turn, lemma_occurs_between, lemma_occurs_within, lemma_trimmed, lines, lines_of,
    occurs, opt_text, same_chars, same_text, string_of, strip_end, strip_start, stripped, texts,
    trim, trimmed, views,
};
use vstd::prelude::*;
use vstd::slice::slice_subrange;

verus! {

/// How many characters the list of skills may have.
pub const SKILL_METADATA_CHAR_BUDGET: usize = 8000;

/// What is known of a skill.
#[derive(Debug, PartialEq, Eq)]
pub struct SkillMetadata {
    /// Its name.
    pub name: String,
    /// What it is for.
    pub description: String,
    /// The file that holds it.
    pub path: String,
}

/// The contents of what is known of a skill.
pub struct SkillView {
    pub name: Seq<char>,
    pub description: Seq<char>,
    pub path: Seq<char>,
}

impl View for SkillMetadata {
    type V = SkillView;

    open spec fn view(&self) -> SkillView {
        SkillView { name: self.name@, description: self.description@, path: self.path@ }
    }
}

/// The contents of a list of skills.
pub open spec fn skills(list: Seq<SkillMetadata>) -> Seq<SkillView> {
    Seq::new(list.len(), |i: int| list[i]@)
}

/// The directories below a working directory's lineage that hold skills.
pub open spec fn project_roots(cwd: Seq<char>) -> Seq<Seq<char>> {
    Seq::new(lineage(cwd).len(), |i: int| joined(joined(lineage(cwd)[i], ".agents"@), "skills"@))
}

/// The directories that hold skills: the application's, the user's own, those
/// of the other client, and those of the working directory and the directories
/// it stands in.
pub open spec fn roots_of(
    skills_dir: Seq<char>,
    codex_home: Seq<char>,
    cwd: Seq<char>,
    source: MessageSource,
) -> Seq<Seq<char>> {
    let own = Seq::<Seq<char>>::empty().push(skills_dir);
    let scoped = match skill_scope(source) {
        Some(scope) => own.push(joined(joined(skills_dir, "__user"@), scope)),
        None => own,
    };
    scoped.push(joined(codex_home, "skills"@)) + project_roots(cwd)
}

/// Lists the directories that hold skills.
pub fn skill_roots(paths: &AppPaths, cwd: &str, source: &MessageSource) -> (r: Vec<String>)
    ensures
        texts(r@) == roots_of(paths.skills_dir@, paths.codex_home@, cwd@, *source),
{
    let mut roots: Vec<String> = Vec::new();
    roots.push(paths.skills_dir.clone());
    if let Some(scope) = user_skill_scope(source) {
        let base = join_path(paths.skills_dir.as_str(), "__user");
        roots.push(join_path(base.as_str(), scope.as_str()));
    }
    roots.push(join_path(paths.codex_home.as_str(), "skills"));
    let ghost start = texts(roots@);
    assert(start + project_roots(cwd@) =~= roots_of(
        paths.skills_dir@,
        paths.codex_home@,
        cwd@,
        *source,
    ));
    let dirs = lineage_of(cwd);
    let ghost all = lineage(cwd@);
    let ghost wanted = project_roots(cwd@);
    let mut i: usize = 0;
    assert(start + wanted.take(0) =~= start);
    while i < dirs.len()
        invariant
            i <= dirs@.len(),
            all == texts(dirs@),
            all == lineage(cwd@),
            wanted == project_roots(cwd@),
            texts(roots@) == start + wanted.take(i as int),
        decreases dirs@.len() - i,
    {
        assert(all[i as int] == dirs@[i as int]@);
        let ghost known = texts(roots@);
        let base = join_path(dirs[i].as_str(), ".agents");
        roots.push(join_path(base.as_str(), "skills"));
        assert(texts(roots@) =~= known.push(wanted[i as int]));
        assert(wanted.take(i + 1) =~= wanted.take(i as int).push(wanted[i as int]));
        assert(texts(roots@) =~= start + wanted.take(i + 1));
        i += 1;
    }
    assert(wanted.take(wanted.len() as int) =~= wanted);
    roots
}

/// The value of a field, without quotes.
pub open spec fn scalar(value: Seq<char>) -> Seq<char> {
    let inner = strip_end(strip_start(trim(value), '"'), '"');
    strip_end(strip_start(inner, '\''), '\'')
}

/// The name and the description that fields give.
pub struct FieldPair {
    pub name: Option<Seq<char>>,
    pub description: Option<Seq<char>>,
}

/// The pair after one more line: the last line with a name counts, and so does
/// the last one with a description.
pub open spec fn with_line(pair: FieldPair, line: Seq<char>) -> FieldPair {
    if "name:"@.is_prefix_of(line) {
        FieldPair { name: Some(scalar(line.skip(5))), ..pair }
    } else if "description:"@.is_prefix_of(line) {
        FieldPair { description: Some(scalar(line.skip(12))), ..pair }
    } else {
        pair
    }
}

/// The name and the description in the lines up to one of three dashes.
pub open spec fn field_pair(ls: Seq<Seq<char>>, pair: FieldPair) -> FieldPair
    decreases ls.len(),
{
    if ls.len() == 0 || ls[0] == "---"@ {
        pair
    } else {
        field_pair(ls.skip(1), with_line(pair, ls[0]))
    }
}

/// The name and the description of a skill: the fields that its file starts
/// with. A file without a name is no skill.
pub open spec fn skill_fields(raw: Seq<char>) -> Option<(Seq<char>, Seq<char>)> {
    let ls = lines(raw);
    if ls.len() == 0 || ls[0] != "---"@ {
        None
    } else {
        let pair = field_pair(ls.skip(1), FieldPair { name: None, description: None });
        match pair.name {
            Some(name) => Some((name, given_or_empty(pair.description))),
            None => None,
        }
    }
}

fn clean_yaml_scalar(value: &[char]) -> (r: String)
    ensures
        r@ == scalar(value@),
{
    let plain = trimmed(value);
    let inner = stripped(plain, '"');
    string_of(stripped(inner, '\''))
}

/// Reads the name and the description of a skill.
pub fn parse_frontmatter(raw: &str) -> (r: Option<(String, String)>)
    ensures
        match r {
            Some((name, description)) => skill_fields(raw@) == Some((name@, description@)),
            None => skill_fields(raw@) is None,
        },
{
    proof {
        reveal_strlit("name:");
        reveal_strlit("description:");
    }
    let cs = chars_of(raw);
    let ls = lines_of(&cs);
    let ghost all = views(ls@);
    let dashes = chars_of("---");
    let name_mark = chars_of("name:");
    let description_mark = chars_of("description:");
    if ls.len() == 0 {
        return None;
    }
    assert(all[0] == ls@[0]@);
    if !same_chars(&ls[0], &dashes) {
        return None;
    }
    let mut name: Option<String> = None;
    let mut description: Option<String> = None;
    let ghost start = FieldPair { name: None, description: None };
    let ghost result = field_pair(all.skip(1), start);
    let mut i: usize = 1;
    let mut open = true;
    while open && i < ls.len()
        invariant
            1 <= i <= ls@.len(),
            all == views(ls@),
            dashes@ == "---"@,
            name_mark@ == "name:"@,
            name_mark@.len() == 5,
            description_mark@ == "description:"@,
            description_mark@.len() == 12,
            ({
                let pair = FieldPair { name: opt_text(name), description: opt_text(description) };
                if open {
                    result == field_pair(all.skip(i as int), pair)
                } else {
                    result == pair
                }
            }),
        decreases ls@.len() - i + if open {
            1int
        } else {
            0int
        },
    {
        let line = &ls[i];
        assert(all.skip(i as int)[0] == line@);
        assert(all.skip(i as int).skip(1) =~= all.skip(i + 1));
        if same_chars(line, &dashes) {
            open = false;
        } else {
            if has_prefix(line, &name_mark) {
                let value = slice_subrange(line, 5, line.len());
                assert(value@ =~= line@.skip(5));
                name = Some(clean_yaml_scalar(value));
            } else if has_prefix(line, &description_mark) {
                let value = slice_subrange(line, 12, line.len());
                assert(value@ =~= line@.skip(12));
                description = Some(clean_yaml_scalar(value));
            }
            i += 1;
        }
    }
    match name {
        Some(found) => {
            let text = match description {
                Some(d) => d,
                None => String::new(),
            };
            assert(text@ =~= given_or_empty(opt_text(description)));
            Some((found, text))
        },
        None => None,
    }
}

/// Whether a skill comes before another: by name, and then by path.
pub open spec fn skill_before(a: SkillView, b: SkillView) -> bool {
    before(a.name, b.name) || (a.name == b.name && path_before(a.path, b.path))
}

/// The order of skills.
pub open spec fn skill_order() -> spec_fn(SkillView, SkillView) -> bool {
    |a: SkillView, b: SkillView| skill_before(a, b)
}

fn precedes(a: &SkillMetadata, b: &SkillMetadata) -> (r: bool)
    ensures
        r == skill_before(a@, b@),
{
    if text_before(a.name.as_str(), b.name.as_str()) {
        true
    } else {
        same_text(a.name.as_str(), b.name.as_str()) && comes_before(
            a.path.as_str(),
            b.path.as_str(),
        )
    }
}

fn sort_skills(list: Vec<SkillMetadata>) -> (r: Vec<SkillMetadata>)
    ensures
        skills(r@) == sorted(skills(list@), skill_order()),
{
    let ghost all = skills(list@);
    let mut rest = list;
    let mut out: Vec<SkillMetadata> = Vec::new();
    let ghost mut taken: int = 0;
    assert(all.take(0) =~= Seq::<SkillView>::empty());
    assert(skills(out@) =~= Seq::<SkillView>::empty());
    while rest.len() > 0
        invariant
            0 <= taken <= all.len(),
            skills(rest@) == all.skip(taken),
            skills(out@) == sorted(all.take(taken), skill_order()),
        decreases rest@.len(),
    {
        let ghost left = skills(rest@);
        assert(left.len() > 0);
        assert(left[0] == all[taken]);
        let item = rest.remove(0);
        let ghost view = item@;
        assert(left[0] == view);
        assert(skills(rest@) =~= left.skip(1));
        assert(left.skip(1) =~= all.skip(taken + 1));
        let ghost known = skills(out@);
        let mut i: usize = out.len();
        while i > 0 && precedes(&item, &out[i - 1])
            invariant
                i <= out@.len(),
                known == skills(out@),
                view == item@,
                forall|k: int| i <= k < out@.len() ==> skill_before(view, #[trigger] known[k]),
            decreases i,
        {
            i -= 1;
        }
        proof {
            lemma_inserted_at(known, view, skill_order(), i as int);
        }
        out.insert(i, item);
        assert(skills(out@) =~= known.insert(i as int, view));
        assert(all.take(taken + 1).drop_last() =~= all.take(taken));
        assert(all.take(taken + 1).last() == view);
        proof {
            taken = taken + 1;
        }
    }
    assert(all.take(taken) =~= all) by {
        assert(skills(rest@).len() == 0);
    }
    out
}

/// A list in which a skill that has the same path as the one before it is left
/// out.
pub open spec fn deduped(list: Seq<SkillView>) -> Seq<SkillView>
    decreases list.len(),
{
    if list.len() == 0 {
        list
    } else {
        let kept = deduped(list.drop_last());
        if kept.len() > 0 && same_path(kept.last().path, list.last().path) {
            kept
        } else {
            kept.push(list.last())
        }
    }
}

/// The line that stands for a skill.
pub open spec fn skill_line(skill: SkillView) -> Seq<char> {
    "- "@ + skill.name + ": "@ + skill.description + " (file: "@ + skill.path + ")"@
}

/// The lines that stand for skills.
pub open spec fn skill_lines(list: Seq<SkillView>) -> Seq<Seq<char>> {
    Seq::new(list.len(), |i: int| skill_line(list[i]))
}

/// The lines before the list of skills.
pub open spec fn opening_lines() -> Seq<Seq<char>> {
    Seq::<Seq<char>>::empty().push("## Skills"@).push(
        "A skill is a set of local instructions to follow that is stored in a `SKILL.md` file. Below is the list of skills that can be used. Each entry includes a name, description, and file path."@,
    ).push("### Available skills"@)
}

/// The lines behind the list of skills.
pub open spec fn closing_lines() -> Seq<Seq<char>> {
    Seq::<Seq<char>>::empty().push("### How to use skills"@).push(
        "- Discovery: The list above is the skills available in this session (name + description + file path). Skill bodies live on disk at the listed paths."@,
    ).push(
        "- Missing/blocked: If a named skill is not in the list or the path cannot be read, say so briefly and continue with the best fallback."@,
    ).push(
        "- Trigger rules: If the user names a skill (with `$SkillName` or plain text) OR the task clearly matches a skill's description shown above, you must use that skill for that turn. Multiple mentions mean use them all. Do not carry skills across turns unless re-mentioned."@,
    ).push(
        "- How to use a skill: after deciding to use a skill, open and read its `SKILL.md` completely before taking task actions. Resolve relative paths against the directory containing that `SKILL.md`."@,
    ).push(
        "- If `scripts/`, `references/`, `assets/`, or templates exist, prefer using those files instead of recreating their contents."@,
    )
}

/// What a session is told of skills.
pub open spec fn skills_text(list: Seq<SkillView>) -> Seq<char> {
    let listed = within(
        skill_lines(deduped(sorted(list, skill_order()))),
        SKILL_METADATA_CHAR_BUDGET as int,
    );
    "\n"@ + join(opening_lines() + listed + closing_lines(), "\n"@) + "\n"@
}

fn line_of(skill: &SkillMetadata) -> (r: String)
    ensures
        r@ == skill_line(skill@),
{
    let mut out = String::from_str("- ");
    out.append(skill.name.as_str());
    out.append(": ");
    out.append(skill.description.as_str());
    out.append(" (file: ");
    out.append(skill.path.as_str());
    out.append(")");
    out
}

fn push_opening(out: &mut Vec<String>)
    requires
        old(out)@.len() == 0,
    ensures
        texts(final(out)@) == opening_lines(),
{
    out.push(String::from_str("## Skills"));
    out.push(
        String::from_str(
            "A skill is a set of local instructions to follow that is stored in a `SKILL.md` file. Below is the list of skills that can be used. Each entry includes a name, description, and file path.",
        ),
    );
    out.push(String::from_str("### Available skills"));
    assert(texts(out@) =~= opening_lines());
}

fn push_closing(out: &mut Vec<String>)
    ensures
        texts(final(out)@) == texts(old(out)@) + closing_lines(),
{
    out.push(String::from_str("### How to use skills"));
    out.push(
        String::from_str(
            "- Discovery: The list above is the skills available in this session (name + description + file path). Skill bodies live on disk at the listed paths.",
        ),
    );
    out.push(
        String::from_str(
            "- Missing/blocked: If a named skill is not in the list or the path cannot be read, say so briefly and continue with the best fallback.",
        ),
    );
    out.push(
        String::from_str(
            "- Trigger rules: If the user names a skill (with `$SkillName` or plain text) OR the task clearly matches a skill's description shown above, you must use that skill for that turn. Multiple mentions mean use them all. Do not carry skills across turns unless re-mentioned.",
        ),
    );
    out.push(
        String::from_str(
            "- How to use a skill: after deciding to use a skill, open and read its `SKILL.md` completely before taking task actions. Resolve relative paths against the directory containing that `SKILL.md`.",
        ),
    );
    out.push(
        String::from_str(
            "- If `scripts/`, `references/`, `assets/`, or templates exist, prefer using those files instead of recreating their contents.",
        ),
    );
    assert(texts(out@) =~= texts(old(out)@) + closing_lines());
}

/// Writes what a session is told of skills, given those that were found; nothing
/// where there are none.
pub fn skills_instructions(found: Vec<SkillMetadata>) -> (r: Option<String>)
    ensures
        match r {
            Some(text) => found@.len() > 0 && text@ == skills_text(skills(found@)),
            None => found@.len() == 0,
        },
{
    if found.len() == 0 {
        return None;
    }
    let list = sort_skills(found);
    let ghost all = skills(list@);
    let mut listed: Vec<String> = Vec::new();
    let mut last: usize = 0;
    let mut i: usize = 0;
    assert(all.take(0) =~= Seq::<SkillView>::empty());
    assert(texts(listed@) =~= skill_lines(deduped(all.take(0))));
    while i < list.len()
        invariant
            i <= list@.len(),
            all == skills(list@),
            texts(listed@) == skill_lines(deduped(all.take(i as int))),
            i > 0 ==> last < i && deduped(all.take(i as int)).len() > 0 && deduped(
                all.take(i as int),
            ).last() == all[last as int],
            i == 0 ==> deduped(all.take(i as int)).len() == 0,
        decreases list@.len() - i,
    {
        assert(all.take(i + 1).drop_last() =~= all.take(i as int));
        assert(all.take(i + 1).last() == list@[i as int]@);
        if i == 0 || !are_same(list[last].path.as_str(), list[i].path.as_str()) {
            let ghost known = texts(listed@);
            let ghost kept = deduped(all.take(i as int));
            listed.push(line_of(&list[i]));
            assert(texts(listed@) =~= known.push(skill_line(all[i as int])));
            assert(skill_lines(kept.push(all[i as int])) =~= skill_lines(kept).push(
                skill_line(all[i as int]),
            ));
            last = i;
        }
        i += 1;
    }
    assert(all.take(all.len() as int) =~= all);
    let kept = keep_within(listed, SKILL_METADATA_CHAR_BUDGET);
    let mut out: Vec<String> = Vec::new();
    push_opening(&mut out);
    let ghost start = texts(out@);
    let ghost more = texts(kept@);
    let mut j: usize = 0;
    assert(more.take(0) =~= Seq::<Seq<char>>::empty());
    assert(start + Seq::<Seq<char>>::empty() =~= start);
    while j < kept.len()
        invariant
            j <= kept@.len(),
            more == texts(kept@),
            texts(out@) == start + more.take(j as int),
        decreases kept@.len() - j,
    {
        let ghost known = texts(out@);
        out.push(kept[j].clone());
        assert(texts(out@) =~= known.push(more[j as int]));
        assert(more.take(j + 1) =~= more.take(j as int).push(more[j as int]));
        assert(texts(out@) =~= start + more.take(j + 1));
        j += 1;
    }
    assert(more.take(more.len() as int) =~= more);
    push_closing(&mut out);
    let mut text = String::from_str("\n");
    text.append(join_strings(&out, "\n").as_str());
    text.append("\n");
    Some(text)
}

/// Skills can be put in order.
pub proof fn lemma_skill_order()
    ensures
        orders(skill_order()),
{
    let o = skill_order();
    assert forall|a: SkillView| !#[trigger] o(a, a) by {
        lemma_before_irreflexive(a.name);
        lemma_parts_before(components(a.path), components(a.path));
    }
    assert forall|a: SkillView, b: SkillView, c: SkillView| #[trigger]
        o(a, b) && #[trigger] o(b, c) implies o(a, c) by {
        lemma_skill_transitive(a, b, c);
    }
    assert forall|a: SkillView, b: SkillView, c: SkillView|
        !#[trigger] o(a, b) && !#[trigger] o(b, c) implies !o(a, c) by {
        lemma_skill_not_before(a, b, c);
    }
}

proof fn lemma_skill_transitive(a: SkillView, b: SkillView, c: SkillView)
    requires
        skill_before(a, b),
        skill_before(b, c),
    ensures
        skill_before(a, c),
{
    if before(a.name, b.name) && before(b.name, c.name) {
        lemma_before_transitive(a.name, b.name, c.name);
    } else if a.name == b.name && b.name == c.name {
        if !before(a.name, b.name) && !before(b.name, c.name) {
            lemma_parts_transitive(components(a.path), components(b.path), components(c.path));
        }
    }
}

proof fn lemma_skill_not_before(a: SkillView, b: SkillView, c: SkillView)
    requires
        !skill_before(a, b),
        !skill_before(b, c),
    ensures
        !skill_before(a, c),
{
    if skill_before(a, c) {
        lemma_before_total(a.name, b.name);
        lemma_before_total(b.name, c.name);
        lemma_parts_before(components(a.path), components(b.path));
        lemma_parts_before(components(b.path), components(c.path));
        if skill_before(b, a) {
            lemma_skill_transitive(b, a, c);
        } else if skill_before(c, b) {
            lemma_skill_transitive(a, c, b);
        } else {
            // Neither precedes the other: names and parts are the same.
            assert(a.name == b.name && b.name == c.name);
            assert(components(a.path) == components(c.path));
            lemma_before_irreflexive(a.name);
            lemma_parts_before(components(a.path), components(a.path));
        }
    }
}

/// The skills of a session stand in order, by name and then by path; none is
/// lost or added by sorting.
pub proof fn law_skills_are_in_order(list: Seq<SkillView>)
    ensures
        in_order(sorted(list, skill_order()), skill_order()),
        sorted(list, skill_order()).to_multiset() == list.to_multiset(),
{
    lemma_skill_order();
    crate::sorting::law_sorting_orders(list, skill_order());
}

/// The value of a field is what stands there, without white space and without
/// the quotes around it.
pub proof fn law_values_lose_their_quotes(before: Seq<char>, own: Seq<char>, after: Seq<char>)
    requires
        own.len() > 0,
        !is_white(own[0]),
        !is_white(own.last()),
        own[0] != '"' && own[0] != '\'',
        own.last() != '"' && own.last() != '\'',
        forall|i: int| 0 <= i < before.len() ==> is_white(#[trigger] before[i]),
        forall|i: int| 0 <= i < after.len() ==> is_white(#[trigger] after[i]),
    ensures
        scalar(before + own + after) == own,
        scalar(before + (seq!['"'] + own + seq!['"']) + after) == own,
        scalar(before + (seq!['\''] + own + seq!['\'']) + after) == own,
{
    lemma_trimmed(before, own, after);
    let double = seq!['"'] + own + seq!['"'];
    let single = seq!['\''] + own + seq!['\''];
    lemma_trimmed(before, double, after);
    lemma_trimmed(before, single, after);
    reveal_with_fuel(strip_start, 2);
    reveal_with_fuel(strip_end, 2);
    assert(double.skip(1) =~= own + seq!['"']);
    assert((own + seq!['"']).drop_last() =~= own);
    assert(single.skip(1) =~= own + seq!['\'']);
    assert((own + seq!['\'']).drop_last() =~= own);
    assert(strip_start(double, '"') == own + seq!['"']);
    assert(strip_start(single, '"') == single);
    assert(strip_end(single, '"') == single);
    assert(strip_start(single, '\'') == own + seq!['\'']);
}

/// A skill is named and described by the fields of those names between the
/// lines of dashes that its file starts with; a file that starts otherwise is
/// no skill, nor is one without a name.
pub proof fn law_skills_are_named_by_their_fields(
    raw: Seq<char>,
    name: Seq<char>,
    description: Seq<char>,
    rest: Seq<Seq<char>>,
)
    ensures
        lines(raw) == seq![
            seq!['-', '-', '-'],
            seq!['n', 'a', 'm', 'e', ':'] + name,
            seq!['d', 'e', 's', 'c', 'r', 'i', 'p', 't', 'i', 'o', 'n', ':'] + description,
            seq!['-', '-', '-'],
        ] + rest ==> skill_fields(raw) == Some((scalar(name), scalar(description))),
        lines(raw) == seq![
            seq!['-', '-', '-'],
            seq!['n', 'a', 'm', 'e', ':'] + name,
            seq!['-', '-', '-'],
        ] + rest ==> skill_fields(raw) == Some((scalar(name), Seq::<char>::empty())),
        lines(raw) == seq![seq!['-', '-', '-'], seq!['-', '-', '-']] + rest ==> skill_fields(raw)
            is None,
        lines(raw).len() == 0 || lines(raw)[0] != seq!['-', '-', '-'] ==> skill_fields(raw) is None,
{
    reveal_strlit("---");
    reveal_strlit("name:");
    reveal_strlit("description:");
    assert("---"@ =~= seq!['-', '-', '-']);
    let ls = lines(raw);
    let none = FieldPair { name: None, description: None };
    let a = seq!['n', 'a', 'm', 'e', ':'] + name;
    let b = seq!['d', 'e', 's', 'c', 'r', 'i', 'p', 't', 'i', 'o', 'n', ':'] + description;
    assert("name:"@ =~= a.subrange(0, 5));
    assert("description:"@ =~= b.subrange(0, 12));
    assert(a.skip(5) =~= name && b.skip(12) =~= description);
    assert(a[0] == 'n' && b[0] == 'd' && "---"@[0] == '-');
    if "name:"@.is_prefix_of(b) {
        assert(b.subrange(0, 5)[0] == "name:"@[0]);
    }
    let named = FieldPair { name: Some(scalar(name)), description: None };
    let both = FieldPair { name: Some(scalar(name)), description: Some(scalar(description)) };
    assert(with_line(none, a) == named);
    assert(with_line(named, b) == both);
    reveal_with_fuel(field_pair, 4);
    if ls == seq![seq!['-', '-', '-'], a, b, seq!['-', '-', '-']] + rest {
        assert(ls.skip(1)[0] == a && ls.skip(1).skip(1)[0] == b);
        assert(ls.skip(1).skip(1).skip(1)[0] == "---"@);
    }
    if ls == seq![seq!['-', '-', '-'], a, seq!['-', '-', '-']] + rest {
        assert(ls.skip(1)[0] == a && ls.skip(1).skip(1)[0] == "---"@);
    }
    if ls == seq![seq!['-', '-', '-'], seq!['-', '-', '-']] + rest {
        assert(ls.skip(1)[0] == "---"@);
    }
}

proof fn lemma_deduped_distinct(list: Seq<SkillView>)
    requires
        forall|i: int, j: int|
            0 <= i < j < list.len() ==> !same_path(
                (#[trigger] list[i]).path,
                (#[trigger] list[j]).path,
            ),
    ensures
        deduped(list) == list,
    decreases list.len(),
{
    if list.len() > 0 {
        let front = list.drop_last();
        assert forall|i: int, j: int| 0 <= i < j < front.len() implies !same_path(
            (#[trigger] front[i]).path,
            (#[trigger] front[j]).path,
        ) by {
            assert(front[i] == list[i] && front[j] == list[j]);
        }
        lemma_deduped_distinct(front);
        if front.len() > 0 {
            assert(front.last() == list[list.len() - 2]);
        }
        assert(front.push(list.last()) =~= list);
    }
}

/// A list of skills in different files that fits into 8000 characters is told
/// whole: every skill with its name, what it is for, and its file.
pub proof fn law_every_skill_is_told(list: Seq<SkillView>, i: int)
    requires
        0 <= i < list.len(),
        forall|k: int, j: int|
            0 <= k < j < sorted(list, skill_order()).len() ==> !same_path(
                (#[trigger] sorted(list, skill_order())[k]).path,
                (#[trigger] sorted(list, skill_order())[j]).path,
            ),
        total_chars(skill_lines(sorted(list, skill_order()))) <= 8000,
    ensures
        occurs(list[i].name, skills_text(list)),
        occurs(list[i].description, skills_text(list)),
        occurs(list[i].path, skills_text(list)),
{
    broadcast use vstd::seq_lib::group_to_multiset_ensures;

    let skill = list[i];
    let order = sorted(list, skill_order());
    law_skills_are_in_order(list);
    assert(list.contains(skill));
    assert(order.to_multiset().count(skill) > 0);
    assert(order.contains(skill));
    let k = choose|k: int| 0 <= k < order.len() && order[k] == skill;
    lemma_deduped_distinct(order);
    lemma_all_fit(skill_lines(order), 8000);
    let all = opening_lines() + skill_lines(order) + closing_lines();
    let at = opening_lines().len() + k;
    let line = skill_line(skill);
    assert(all[at] == line);
    lemma_joined_part(all, "\n"@, at);
    let body = join(all, "\n"@);
    let told = skills_text(list);
    lemma_occurs_between("\n"@, body, "\n"@);
    lemma_occurs_within(line, body, told);
    lemma_line_tells(skill);
    lemma_occurs_within(skill.name, line, told);
    lemma_occurs_within(skill.description, line, told);
    lemma_occurs_within(skill.path, line, told);
}

proof fn lemma_line_tells(skill: SkillView)
    ensures
        occurs(skill.name, skill_line(skill)),
        occurs(skill.description, skill_line(skill)),
        occurs(skill.path, skill_line(skill)),
{
    let line = skill_line(skill);
    let head = "- "@ + skill.name + ": "@ + skill.description;
    lemma_occur_in_turn("- "@, skill.name, ": "@, skill.description);
    let tail = " (file: "@ + skill.path + ")"@;
    assert(line =~= Seq::empty() + head + tail);
    lemma_occurs_between(Seq::empty(), head, tail);
    lemma_occurs_within(skill.name, head, line);
    lemma_occurs_within(skill.description, head, line);
    lemma_occurs_between(head + " (file: "@, skill.path, ")"@);
}

/// A skill that does not fit into 8000 characters ends the list.
pub proof fn law_skills_end_at_the_limit(list: Seq<SkillView>)
    requires
        deduped(sorted(list, skill_order())).len() > 0,
        skill_line(deduped(sorted(list, skill_order()))[0]).len() > 8000,
    ensures
        skills_text(list) == "\n"@ + join(opening_lines() + closing_lines(), "\n"@) + "\n"@,
{
    let found = skill_lines(deduped(sorted(list, skill_order())));
    assert(found[0].len() > 8000);
    assert(opening_lines() + Seq::<Seq<char>>::empty() + closing_lines() =~= opening_lines()
        + closing_lines());
}

/// Skills are looked for in the application's directory first, then in the
/// user's own, where the user is known, then in the other client's, and last in
/// the working directory and those it stands in.
pub proof fn law_skills_are_found_in_all_places(
    skills_dir: Seq<char>,
    codex_home: Seq<char>,
    cwd: Seq<char>,
    source: MessageSource,
)
    ensures
        ({
            let roots = roots_of(skills_dir, codex_home, cwd, source);
            let n = if skill_scope(source) is Some {
                3int
            } else {
                2
            };
            &&& roots.len() == n + lineage(cwd).len()
            &&& roots[0] == skills_dir
            &&& skill_scope(source) matches Some(scope) ==> roots[1] == joined(
                joined(skills_dir, seq!['_', '_', 'u', 's', 'e', 'r']),
                scope,
            )
            &&& roots[n - 1] == joined(codex_home, seq!['s', 'k', 'i', 'l', 'l', 's'])
            &&& forall|i: int|
                0 <= i < lineage(cwd).len() ==> #[trigger] roots[n + i] == joined(
                    joined(lineage(cwd)[i], seq!['.', 'a', 'g', 'e', 'n', 't', 's']),
                    seq!['s', 'k', 'i', 'l', 'l', 's'],
                )
        }),
{
    reveal_strlit("__user");
    reveal_strlit("skills");
    reveal_strlit(".agents");
    assert("__user"@ =~= seq!['_', '_', 'u', 's', 'e', 'r']);
    assert("skills"@ =~= seq!['s', 'k', 'i', 'l', 'l', 's']);
    assert(".agents"@ =~= seq!['.', 'a', 'g', 'e', 'n', 't', 's']);
}

/// Skills come by name, and those of one name by path.
pub proof fn law_names_go_before_paths(a: SkillView, b: SkillView)
    ensures
        before(a.name, b.name) ==> skill_before(a, b) && !skill_before(b, a),
        a.name == b.name && path_before(a.path, b.path) ==> skill_before(a, b),
{
    if before(a.name, b.name) {
        if before(b.name, a.name) {
            lemma_before_transitive(a.name, b.name, a.name);
        }
        lemma_before_irreflexive(a.name);
    }
}

} // verus!
