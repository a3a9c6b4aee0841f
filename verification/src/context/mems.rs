//! Memories: notes that sessions start with.

use crate::context::scope::{memory_user_key, user_key};
use crate::home::{join_path, joined, AppPaths};
use crate::message::MessageSource;
use crate::order::{before, text_before};
use crate::path::{file_name, file_name_of};
use crate::sorting::{in_order, lemma_inserted_at, orders, sorted};
use crate::text::{
    ascii_alnum, blank, chars_of, find_chars, first_at, given_or_empty, has_prefix, has_suffix,
    is_ascii_alnum, is_blank, join, join_strings, lemma_first_at, lemma_joined_part,
    lemma_occur_in_turn, lemma_occurs_between, lemma_occurs_within, occurs, occurs_at, opt_text,
    string_of, texts, trim, trimmed_text,
};
use vstd::prelude::*;
use vstd::slice::slice_subrange;

verus! {

/// How many characters of memories a session starts with.
pub const MEMORY_CHAR_BUDGET: usize = 24000;

/// Whose memory it is.
#[derive(Debug, Clone, Copy, PartialEq, Eq, Structural)]
pub enum MemoryScope {
    /// Everybody's.
    Global,
    /// The user's own.
    User,
}

impl MemoryScope {
    /// The name of the scope.
    pub open spec fn name(self) -> Seq<char> {
        match self {
            MemoryScope::Global => "Global"@,
            MemoryScope::User => "User"@,
        }
    }

    /// The name of the scope.
    pub fn label(self) -> (r: &'static str)
        ensures
            r@ == self.name(),
    {
        match self {
            MemoryScope::Global => "Global",
            MemoryScope::User => "User",
        }
    }
}

/// A memory.
#[derive(Debug, PartialEq, Eq)]
pub struct MemoryDocument {
    /// Whose memory it is.
    pub scope: MemoryScope,
    /// Its key.
    pub key: String,
    /// What it says.
    pub body: String,
}

/// The contents of a memory.
pub struct MemoryView {
    pub scope: MemoryScope,
    pub key: Seq<char>,
    pub body: Seq<char>,
}

impl View for MemoryDocument {
    type V = MemoryView;

    open spec fn view(&self) -> MemoryView {
        MemoryView { scope: self.scope, key: self.key@, body: self.body@ }
    }
}

/// The contents of a list of memories.
pub open spec fn memories(list: Seq<MemoryDocument>) -> Seq<MemoryView> {
    Seq::new(list.len(), |i: int| list[i]@)
}

/// Whether all characters of a key are letters or digits.
pub open spec fn is_key(key: Seq<char>) -> bool {
    key.len() > 0 && forall|i: int| 0 <= i < key.len() ==> is_ascii_alnum(#[trigger] key[i])
}

/// The key of a memory file: its name without the ending `.md`, where the rest
/// is letters and digits.
pub open spec fn memory_key(path: Seq<char>) -> Option<Seq<char>> {
    match file_name(path) {
        Some(name) => if ".md"@.is_suffix_of(name) && is_key(name.take(name.len() - 3)) {
            Some(name.take(name.len() - 3))
        } else {
            None
        },
        None => None,
    }
}

/// The key of a memory file; other files have none.
pub fn memory_key_from_path(path: &str) -> (r: Option<String>)
    ensures
        opt_text(r) == memory_key(path@),
{
    proof {
        reveal_strlit(".md");
    }
    let name = match file_name_of(path) {
        Some(name) => name,
        None => return None,
    };
    let cs = chars_of(name.as_str());
    let ending = chars_of(".md");
    if !has_suffix(&cs, &ending) {
        return None;
    }
    let n: usize = cs.len() - 3;
    if n == 0 {
        return None;
    }
    let key = slice_subrange(&cs, 0, n);
    assert(key@ =~= cs@.take(cs@.len() - 3));
    let mut i: usize = 0;
    while i < key.len()
        invariant
            i <= key@.len(),
            forall|k: int| 0 <= k < i ==> is_ascii_alnum(#[trigger] key@[k]),
            key@ == cs@.take(cs@.len() - 3),
            file_name(path@) == Some(cs@),
        decreases key@.len() - i,
    {
        if !ascii_alnum(key[i]) {
            assert(!is_ascii_alnum(key@[i as int]));
            return None;
        }
        i += 1;
    }
    Some(string_of(key))
}

/// A text without the block of fields that it starts with: a line of three
/// dashes, the fields, and a line that starts with three dashes.
pub open spec fn without_frontmatter(raw: Seq<char>) -> Seq<char> {
    if "---\n"@.is_prefix_of(raw) && occurs("\n---"@, raw.skip(4)) {
        let rest = raw.skip(4);
        let end = first_at("\n---"@, rest, 0);
        let after = rest.skip(end + 4);
        if after.len() > 0 && after[0] == '\n' {
            after.skip(1)
        } else {
            after
        }
    } else {
        raw
    }
}

/// Removes the block of fields that a text starts with.
pub fn strip_frontmatter(raw: &str) -> (r: String)
    ensures
        r@ == without_frontmatter(raw@),
{
    proof {
        reveal_strlit("---\n");
        reveal_strlit("\n---");
    }
    let cs = chars_of(raw);
    let open = chars_of("---\n");
    if !has_prefix(&cs, &open) {
        return String::from_str(raw);
    }
    let rest = slice_subrange(&cs, 4, cs.len());
    assert(rest@ =~= cs@.skip(4));
    let close = chars_of("\n---");
    let end: usize = match find_chars(rest, &close) {
        Some(i) => i,
        None => return String::from_str(raw),
    };
    proof {
        lemma_first_at("\n---"@, rest@, 0, end as int);
    }
    let after = slice_subrange(rest, end + 4, rest.len());
    assert(after@ =~= rest@.skip(end + 4));
    if after.len() > 0 && after[0] == '\n' {
        let tail = slice_subrange(after, 1, after.len());
        assert(tail@ =~= after@.skip(1));
        string_of(tail)
    } else {
        string_of(after)
    }
}

/// A memory as it was read from a file.
pub fn memory_document(scope: MemoryScope, key: String, raw: &str) -> (r: MemoryDocument)
    ensures
        r.scope == scope,
        r.key == key,
        r.body@ == trim(without_frontmatter(raw@)),
{
    let stripped = strip_frontmatter(raw);
    MemoryDocument { scope, key, body: trimmed_text(stripped.as_str()) }
}

/// Whether a memory comes before another: everybody's before the user's own,
/// and by key.
pub open spec fn memory_before(a: MemoryView, b: MemoryView) -> bool {
    if a.scope == b.scope {
        before(a.key, b.key)
    } else {
        a.scope == MemoryScope::Global
    }
}

/// The order of memories.
pub open spec fn memory_order() -> spec_fn(MemoryView, MemoryView) -> bool {
    |a: MemoryView, b: MemoryView| memory_before(a, b)
}

fn precedes(a: &MemoryDocument, b: &MemoryDocument) -> (r: bool)
    ensures
        r == memory_before(a@, b@),
{
    if a.scope == b.scope {
        text_before(a.key.as_str(), b.key.as_str())
    } else {
        a.scope == MemoryScope::Global
    }
}

fn sort_memories(list: Vec<MemoryDocument>) -> (r: Vec<MemoryDocument>)
    ensures
        memories(r@) == sorted(memories(list@), memory_order()),
{
    let ghost all = memories(list@);
    let mut rest = list;
    let mut out: Vec<MemoryDocument> = Vec::new();
    let ghost mut taken: int = 0;
    assert(all.take(0) =~= Seq::<MemoryView>::empty());
    assert(memories(out@) =~= Seq::<MemoryView>::empty());
    while rest.len() > 0
        invariant
            0 <= taken <= all.len(),
            memories(rest@) == all.skip(taken),
            memories(out@) == sorted(all.take(taken), memory_order()),
        decreases rest@.len(),
    {
        let ghost left = memories(rest@);
        assert(left.len() > 0);
        assert(left[0] == all[taken]);
        let item = rest.remove(0);
        let ghost view = item@;
        assert(left[0] == view);
        assert(memories(rest@) =~= left.skip(1));
        assert(left.skip(1) =~= all.skip(taken + 1));
        let ghost list_before = memories(out@);
        let mut i: usize = out.len();
        while i > 0 && precedes(&item, &out[i - 1])
            invariant
                i <= out@.len(),
                list_before == memories(out@),
                view == item@,
                forall|k: int| i <= k < out@.len() ==> memory_before(view, #[trigger] list_before[k]),
            decreases i,
        {
            i -= 1;
        }
        proof {
            lemma_inserted_at(list_before, view, memory_order(), i as int);
        }
        out.insert(i, item);
        assert(memories(out@) =~= list_before.insert(i as int, view));
        assert(all.take(taken + 1).drop_last() =~= all.take(taken));
        assert(all.take(taken + 1).last() == view);
        proof {
            taken = taken + 1;
        }
    }
    assert(all.take(taken) =~= all) by {
        assert(memories(rest@).len() == 0);
    }
    out
}

/// The block that stands for a memory.
pub open spec fn memory_block(m: MemoryView) -> Seq<char> {
    "### "@ + m.scope.name() + ":"@ + m.key + "\n"@ + trim(m.body)
}

/// The blocks of the memories that say something.
pub open spec fn memory_blocks(list: Seq<MemoryView>) -> Seq<Seq<char>>
    decreases list.len(),
{
    if list.len() == 0 {
        Seq::empty()
    } else {
        let front = memory_blocks(list.drop_last());
        if is_blank(list.last().body) {
            front
        } else {
            front.push(memory_block(list.last()))
        }
    }
}

/// The texts that fit into a number of characters, from the first on: the first
/// that does not fit ends the list.
pub open spec fn within(list: Seq<Seq<char>>, budget: int) -> Seq<Seq<char>>
    decreases list.len(),
{
    if list.len() == 0 || list[0].len() > budget {
        Seq::empty()
    } else {
        seq![list[0]] + within(list.skip(1), budget - list[0].len())
    }
}

/// Keeps the texts that fit into a number of characters.
pub fn keep_within(list: Vec<String>, budget: usize) -> (r: Vec<String>)
    ensures
        texts(r@) == within(texts(list@), budget as int),
{
    let ghost all = texts(list@);
    let mut rest = list;
    let mut left: usize = budget;
    let mut out: Vec<String> = Vec::new();
    assert(texts(out@) + within(all, budget as int) =~= within(all, budget as int));
    let mut fits = true;
    while fits && rest.len() > 0
        invariant
            fits ==> within(all, budget as int) == texts(out@) + within(
                texts(rest@),
                left as int,
            ),
            !fits ==> within(all, budget as int) == texts(out@),
        decreases rest@.len() + if fits {
                1int
            } else {
                0int
            },
    {
        let ghost before = texts(rest@);
        let ghost kept = texts(out@);
        let size: usize = chars_of(rest[0].as_str()).len();
        assert(before[0] == rest@[0]@);
        if size > left {
            assert(kept + Seq::<Seq<char>>::empty() =~= kept);
            fits = false;
        } else {
            let item = rest.remove(0);
            let ghost view = item@;
            assert(texts(rest@) =~= before.skip(1));
            out.push(item);
            left -= size;
            assert(texts(out@) =~= kept.push(view));
            assert(kept + (seq![view] + within(before.skip(1), left as int)) =~= texts(out@)
                + within(texts(rest@), left as int));
        }
    }
    assert(texts(out@) + Seq::<Seq<char>>::empty() =~= texts(out@));
    out
}

/// The directory with a user's memories.
pub open spec fn user_dir(mems_dir: Seq<char>, key: Seq<char>) -> Seq<char> {
    joined(joined(mems_dir, "__user"@), key)
}

/// The directory with a user's memories.
pub fn user_memory_dir(paths: &AppPaths, key: &str) -> (r: String)
    ensures
        r@ == user_dir(paths.mems_dir@, key@),
{
    let base = join_path(paths.mems_dir.as_str(), "__user");
    join_path(base.as_str(), key)
}

/// The lines that say where memories are written.
pub open spec fn scope_lines(mems_dir: Seq<char>, source: MessageSource) -> Seq<Seq<char>> {
    let first = Seq::<Seq<char>>::empty().push("Memory write scope:"@).push(
        "- global_dir: "@ + mems_dir,
    );
    match user_key(source) {
        Some(key) => first.push(
            "- default_scope: user\n- user_id: "@ + given_or_empty(opt_text(source.user_id))
                + "\n- user_key: "@ + key + "\n- user_dir: "@ + user_dir(mems_dir, key),
        ),
        None => first.push("- default_scope: global\n- user_id: \n- user_key: \n- user_dir: "@),
    }
}

fn memory_scope_lines(paths: &AppPaths, source: &MessageSource) -> (r: Vec<String>)
    ensures
        texts(r@) == scope_lines(paths.mems_dir@, *source),
{
    let mut lines: Vec<String> = Vec::new();
    lines.push(String::from_str("Memory write scope:"));
    let mut dir_line = String::from_str("- global_dir: ");
    dir_line.append(paths.mems_dir.as_str());
    lines.push(dir_line);
    match memory_user_key(source) {
        Some(key) => {
            let mut line = String::from_str("- default_scope: user\n- user_id: ");
            let ghost start = line@;
            if let Some(id) = &source.user_id {
                line.append(id.as_str());
            }
            assert(line@ =~= start + given_or_empty(opt_text(source.user_id)));
            line.append("\n- user_key: ");
            line.append(key.as_str());
            line.append("\n- user_dir: ");
            line.append(user_memory_dir(paths, key.as_str()).as_str());
            lines.push(line);
        },
        None => {
            lines.push(
                String::from_str("- default_scope: global\n- user_id: \n- user_key: \n- user_dir: "),
            );
        },
    }
    assert(texts(lines@) =~= scope_lines(paths.mems_dir@, *source));
    lines
}

/// The memories that a session starts with.
pub open spec fn memory_text(
    mems_dir: Seq<char>,
    source: MessageSource,
    list: Seq<MemoryView>,
) -> Seq<char> {
    let blocks = memory_blocks(sorted(list, memory_order()));
    let lines = scope_lines(mems_dir, source) + within(blocks, MEMORY_CHAR_BUDGET as int);
    "\n"@ + join(lines, "\n\n"@) + "\n"@
}

fn block_of(m: &MemoryDocument) -> (r: String)
    ensures
        r@ == memory_block(m@),
{
    let mut out = String::from_str("### ");
    out.append(m.scope.label());
    out.append(":");
    out.append(m.key.as_str());
    out.append("\n");
    out.append(trimmed_text(m.body.as_str()).as_str());
    out
}

/// Writes the memories that a session starts with, given those that were found:
/// in order, as many as fit, below the lines that say where memories are
/// written.
pub fn memory_instructions(
    paths: &AppPaths,
    source: &MessageSource,
    found: Vec<MemoryDocument>,
) -> (r: String)
    ensures
        r@ == memory_text(paths.mems_dir@, *source, memories(found@)),
{
    let list = sort_memories(found);
    let ghost all = memories(list@);
    let mut blocks: Vec<String> = Vec::new();
    let mut i: usize = 0;
    assert(all.take(0) =~= Seq::<MemoryView>::empty());
    assert(texts(blocks@) =~= Seq::<Seq<char>>::empty());
    while i < list.len()
        invariant
            i <= list@.len(),
            all == memories(list@),
            texts(blocks@) == memory_blocks(all.take(i as int)),
        decreases list@.len() - i,
    {
        assert(all.take(i + 1).drop_last() =~= all.take(i as int));
        assert(all.take(i + 1).last() == list@[i as int]@);
        if !blank(list[i].body.as_str()) {
            let ghost known = texts(blocks@);
            let block = block_of(&list[i]);
            blocks.push(block);
            assert(texts(blocks@) =~= known.push(memory_block(all[i as int])));
        }
        i += 1;
    }
    assert(all.take(all.len() as int) =~= all);
    let kept = keep_within(blocks, MEMORY_CHAR_BUDGET);
    let mut lines = memory_scope_lines(paths, source);
    let ghost start = texts(lines@);
    let ghost more = texts(kept@);
    let mut j: usize = 0;
    assert(more.take(0) =~= Seq::<Seq<char>>::empty());
    assert(start + Seq::<Seq<char>>::empty() =~= start);
    while j < kept.len()
        invariant
            j <= kept@.len(),
            more == texts(kept@),
            texts(lines@) == start + more.take(j as int),
        decreases kept@.len() - j,
    {
        let ghost known = texts(lines@);
        lines.push(kept[j].clone());
        assert(texts(lines@) =~= known.push(more[j as int]));
        assert(more.take(j + 1) =~= more.take(j as int).push(more[j as int]));
        assert(texts(lines@) =~= start + more.take(j + 1));
        j += 1;
    }
    assert(more.take(more.len() as int) =~= more);
    let mut out = String::from_str("\n");
    out.append(join_strings(&lines, "\n\n").as_str());
    out.append("\n");
    out
}

/// Memories can be put in order.
pub proof fn lemma_memory_order()
    ensures
        orders(memory_order()),
{
    let o = memory_order();
    assert forall|a: MemoryView| !#[trigger] o(a, a) by {
        crate::order::lemma_before_irreflexive(a.key);
    }
    assert forall|a: MemoryView, b: MemoryView, c: MemoryView| #[trigger]
        o(a, b) && #[trigger] o(b, c) implies o(a, c) by {
        if a.scope == b.scope && b.scope == c.scope {
            crate::order::lemma_before_transitive(a.key, b.key, c.key);
        }
    }
    assert forall|a: MemoryView, b: MemoryView, c: MemoryView|
        !#[trigger] o(a, b) && !#[trigger] o(b, c) implies !o(a, c) by {
        if a.scope == b.scope && b.scope == c.scope && before(a.key, c.key) {
            crate::order::lemma_before_total(a.key, b.key);
            crate::order::lemma_before_total(b.key, c.key);
            if a.key != b.key && b.key != c.key {
                crate::order::lemma_before_transitive(b.key, a.key, c.key);
                crate::order::lemma_before_transitive(c.key, b.key, a.key);
                crate::order::lemma_before_transitive(a.key, c.key, a.key);
                crate::order::lemma_before_irreflexive(a.key);
            }
        }
    }
}

/// The memories of a session stand in order: everybody's before the user's own,
/// and each kind by key; none is lost or added by sorting.
pub proof fn law_memories_are_in_order(list: Seq<MemoryView>)
    ensures
        in_order(sorted(list, memory_order()), memory_order()),
        sorted(list, memory_order()).to_multiset() == list.to_multiset(),
{
    lemma_memory_order();
    crate::sorting::law_sorting_orders(list, memory_order());
}

/// Of a memory file only the body is told: the block of fields that it starts
/// with is left out.
pub proof fn law_only_the_body_is_told(fields: Seq<char>, body: Seq<char>)
    requires
        forall|k: int|
            0 <= k < fields.len() ==> !#[trigger] occurs_at("\n---"@, fields + "\n---"@, k),
    ensures
        without_frontmatter("---\n"@ + fields + "\n---\n"@ + body) == body,
{
    reveal_strlit("---\n");
    reveal_strlit("\n---");
    reveal_strlit("\n---\n");
    let raw = "---\n"@ + fields + "\n---\n"@ + body;
    let rest = raw.skip(4);
    let n = fields.len() as int;
    assert("---\n"@.is_prefix_of(raw)) by {
        assert(raw.take(4) =~= "---\n"@);
    }
    assert(rest =~= fields + "\n---\n"@ + body);
    assert(rest.subrange(n, n + 4) =~= "\n---"@);
    assert(occurs_at("\n---"@, rest, n));
    assert forall|k: int| 0 <= k < n implies !#[trigger] occurs_at("\n---"@, rest, k) by {
        assert(!occurs_at("\n---"@, fields + "\n---"@, k));
        assert(rest.subrange(k, k + 4) =~= (fields + "\n---"@).subrange(k, k + 4));
    }
    lemma_first_at("\n---"@, rest, 0, n);
    assert(rest.skip(n + 4)[0] == '\n');
    assert(rest.skip(n + 4).skip(1) =~= body);
}

/// The characters of a list of texts.
pub open spec fn total_chars(list: Seq<Seq<char>>) -> nat
    decreases list.len(),
{
    if list.len() == 0 {
        0
    } else {
        list[0].len() + total_chars(list.skip(1))
    }
}

/// What is kept stays within the number of characters, and is the beginning of
/// the list.
pub proof fn law_kept_texts_fit(list: Seq<Seq<char>>, budget: int)
    requires
        budget >= 0,
    ensures
        total_chars(within(list, budget)) <= budget,
        within(list, budget).is_prefix_of(list),
    decreases list.len(),
{
    if list.len() > 0 && list[0].len() <= budget {
        let rest = within(list.skip(1), budget - list[0].len());
        law_kept_texts_fit(list.skip(1), budget - list[0].len());
        let all = within(list, budget);
        assert(all.skip(1) =~= rest);
        assert(list =~= seq![list[0]] + list.skip(1));
        assert(all =~= list.subrange(0, all.len() as int)) by {
            assert forall|i: int| 0 <= i < all.len() implies all[i] == list[i] by {
                if i > 0 {
                    assert(all[i] == rest[i - 1]);
                    assert(rest[i - 1] == list.skip(1).subrange(0, rest.len() as int)[i - 1]);
                }
            }
        }
    } else {
        assert(within(list, budget) =~= list.subrange(0, 0));
    }
}

pub proof fn lemma_all_fit(list: Seq<Seq<char>>, budget: int)
    requires
        total_chars(list) <= budget,
    ensures
        within(list, budget) == list,
    decreases list.len(),
{
    if list.len() > 0 {
        lemma_all_fit(list.skip(1), budget - list[0].len());
        assert(seq![list[0]] + list.skip(1) =~= list);
    } else {
        assert(within(list, budget) =~= list);
    }
}

proof fn lemma_block_place(list: Seq<MemoryView>, i: int) -> (k: int)
    requires
        0 <= i < list.len(),
        !is_blank(list[i].body),
    ensures
        0 <= k < memory_blocks(list).len(),
        memory_blocks(list)[k] == memory_block(list[i]),
    decreases list.len(),
{
    let front = list.drop_last();
    let before = memory_blocks(front);
    if i == list.len() - 1 {
        before.len() as int
    } else {
        assert(front[i] == list[i]);
        let k = lemma_block_place(front, i);
        assert(memory_blocks(list)[k] == before[k]);
        k
    }
}

/// A list of memories that fits into 24000 characters is told whole: every
/// memory that says something is told with its key.
pub proof fn law_every_memory_is_told(
    mems_dir: Seq<char>,
    source: MessageSource,
    list: Seq<MemoryView>,
    i: int,
)
    requires
        0 <= i < list.len(),
        !is_blank(list[i].body),
        total_chars(memory_blocks(sorted(list, memory_order()))) <= 24000,
    ensures
        occurs(trim(list[i].body), memory_text(mems_dir, source, list)),
        occurs(list[i].key, memory_text(mems_dir, source, list)),
{
    broadcast use vstd::seq_lib::group_to_multiset_ensures;

    let m = list[i];
    let order = sorted(list, memory_order());
    law_memories_are_in_order(list);
    assert(list.contains(m));
    assert(order.to_multiset().count(m) > 0);
    assert(order.contains(m));
    let n = choose|n: int| 0 <= n < order.len() && order[n] == m;
    let blocks = memory_blocks(order);
    let k = lemma_block_place(order, n);
    lemma_all_fit(blocks, 24000);
    let all = scope_lines(mems_dir, source) + blocks;
    let at = scope_lines(mems_dir, source).len() + k;
    assert(all[at] == blocks[k]);
    lemma_joined_part(all, "\n\n"@, at);
    let body = join(all, "\n\n"@);
    let told = memory_text(mems_dir, source, list);
    lemma_occurs_between("\n"@, body, "\n"@);
    let block = memory_block(m);
    lemma_occurs_within(block, body, told);
    let head = "### "@ + m.scope.name() + ":"@;
    lemma_occur_in_turn(head, m.key, "\n"@, trim(m.body));
    lemma_occurs_within(m.key, block, told);
    lemma_occurs_within(trim(m.body), block, told);
}

/// Everybody's memories come before the user's own, and memories of one kind
/// come by their keys.
pub proof fn law_everybodys_memories_come_first(a: MemoryView, b: MemoryView)
    ensures
        a.scope == MemoryScope::Global && b.scope == MemoryScope::User ==> memory_before(a, b)
            && !memory_before(b, a),
        a.scope == b.scope && before(a.key, b.key) ==> memory_before(a, b),
        a.scope == b.scope && a.key == b.key ==> !memory_before(a, b),
{
    if a.scope == b.scope && a.key == b.key {
        crate::order::lemma_before_irreflexive(a.key);
    }
}

/// A memory is a file whose name is a key of letters and digits with the
/// ending `.md`, and no other file is one.
pub proof fn law_memory_files_are_named_by_their_key(path: Seq<char>, key: Seq<char>)
    ensures
        key.len() > 0 && (forall|i: int| 0 <= i < key.len() ==> is_ascii_alnum(#[trigger] key[i]))
            && file_name(path) == Some(key + seq!['.', 'm', 'd']) ==> memory_key(path) == Some(
            key,
        ),
        memory_key(path) is Some ==> file_name(path) == Some(
            memory_key(path)->0 + seq!['.', 'm', 'd'],
        ),
{
    reveal_strlit(".md");
    assert(".md"@ =~= seq!['.', 'm', 'd']);
    let name = key + seq!['.', 'm', 'd'];
    assert(name.take(name.len() - 3) =~= key);
    assert(name.subrange(name.len() - 3, name.len() as int) =~= ".md"@);
    if memory_key(path) is Some {
        let found = file_name(path)->0;
        assert(found =~= found.take(found.len() - 3) + found.subrange(
            found.len() - 3,
            found.len() as int,
        ));
    }
}

/// A file that does not start with a block of fields is told as it is.
pub proof fn law_plain_memories_stay(raw: Seq<char>)
    requires
        raw.len() == 0 || raw[0] != '-',
    ensures
        without_frontmatter(raw) == raw,
{
    reveal_strlit("---\n");
    if "---\n"@.is_prefix_of(raw) {
        assert(raw.subrange(0, 4)[0] == "---\n"@[0]);
    }
}

/// A known user's memories are written to the directory of the user's key by
/// default, and an unknown user's to everybody's.
pub proof fn law_memories_go_to_their_owner(mems_dir: Seq<char>, source: MessageSource)
    ensures
        ({
            let told = scope_lines(mems_dir, source);
            &&& told.contains("- global_dir: "@ + mems_dir)
            &&& user_key(source) matches Some(key) ==> occurs(
                "\n- user_dir: "@ + user_dir(mems_dir, key),
                told.last(),
            ) && occurs("- default_scope: user"@, told.last())
            &&& user_key(source) is None ==> occurs("- default_scope: global"@, told.last())
        }),
{
    let told = scope_lines(mems_dir, source);
    assert(told[1] == "- global_dir: "@ + mems_dir);
    match user_key(source) {
        Some(key) => {
            reveal_strlit("- default_scope: user\n- user_id: ");
            reveal_strlit("- default_scope: user");
            let id = given_or_empty(opt_text(source.user_id));
            let start = "- default_scope: user\n- user_id: "@;
            let head = start + id + "\n- user_key: "@ + key;
            let last = "\n- user_dir: "@ + user_dir(mems_dir, key);
            assert(told.last() =~= head + last + Seq::empty());
            lemma_occurs_between(head, last, Seq::empty());
            assert(told.last().subrange(0, 21) =~= "- default_scope: user"@);
            assert(occurs_at("- default_scope: user"@, told.last(), 0));
        },
        None => {
            reveal_strlit("- default_scope: global\n- user_id: \n- user_key: \n- user_dir: ");
            reveal_strlit("- default_scope: global");
            assert(told.last().subrange(0, 23) =~= "- default_scope: global"@);
            assert(occurs_at("- default_scope: global"@, told.last(), 0));
        },
    }
}

/// A memory that does not fit into 24000 characters ends the list.
pub proof fn law_memories_end_at_the_limit(
    mems_dir: Seq<char>,
    source: MessageSource,
    list: Seq<MemoryView>,
)
    requires
        memory_blocks(sorted(list, memory_order())).len() > 0,
        memory_blocks(sorted(list, memory_order()))[0].len() > 24000,
    ensures
        memory_text(mems_dir, source, list) == "\n"@ + join(
            scope_lines(mems_dir, source),
            "\n\n"@,
        ) + "\n"@,
{
    let scope = scope_lines(mems_dir, source);
    assert(scope + Seq::<Seq<char>>::empty() =~= scope);
}

} // verus!
