//! The instructions of a session, put together.

use crate::text::{
    blank, given_or_empty, is_blank, is_white, join, join_strings, lemma_joined_part,
    lemma_occurs_between, lemma_occurs_within, lemma_trimmed, occurs, opt_text, texts, trim,
    trimmed_text,
};
use vstd::prelude::*;

verus! {

/// The instructions that a session starts with.
#[derive(Debug, Clone, PartialEq, Eq)]
pub struct InitialContext {
    /// The instructions.
    pub instructions: String,
}

/// The blocks that say something, without white space around them.
pub open spec fn filled_blocks(blocks: Seq<Seq<char>>) -> Seq<Seq<char>>
    decreases blocks.len(),
{
    if blocks.len() == 0 {
        blocks
    } else {
        let before = filled_blocks(blocks.drop_last());
        if is_blank(blocks.last()) {
            before
        } else {
            before.push(trim(blocks.last()))
        }
    }
}

/// The blocks that say something, one after the other.
pub fn join_instruction_blocks(blocks: &Vec<String>) -> (r: String)
    ensures
        r@ == join(filled_blocks(texts(blocks@)), "\n\n"@),
{
    let ghost all = texts(blocks@);
    let mut kept: Vec<String> = Vec::new();
    let mut i: usize = 0;
    assert(all.take(0) =~= Seq::<Seq<char>>::empty());
    assert(texts(kept@) =~= Seq::<Seq<char>>::empty());
    while i < blocks.len()
        invariant
            i <= blocks@.len(),
            all == texts(blocks@),
            texts(kept@) == filled_blocks(all.take(i as int)),
        decreases blocks@.len() - i,
    {
        assert(all.take(i + 1).drop_last() =~= all.take(i as int));
        assert(all.take(i + 1).last() == blocks@[i as int]@);
        if !blank(blocks[i].as_str()) {
            let ghost before = texts(kept@);
            kept.push(trimmed_text(blocks[i].as_str()));
            assert(texts(kept@) =~= before.push(trim(all[i as int])));
        }
        i += 1;
    }
    assert(all.take(all.len() as int) =~= all);
    join_strings(&kept, "\n\n")
}

/// A block under its title.
pub open spec fn titled(title: Seq<char>, text: Seq<char>) -> Seq<char> {
    "## "@ + title + "\n"@ + text
}

fn instruction_block(title: &str, text: &str) -> (r: String)
    ensures
        r@ == titled(title@, text@),
{
    let mut out = String::from_str("## ");
    out.append(title);
    out.append("\n");
    out.append(text);
    out
}

/// The blocks of a session's instructions: the system prompt, the instructions
/// of `AGENTS.md` files, the memories and the skills, as far as there are any.
pub open spec fn context_blocks(
    system: Option<Seq<char>>,
    agents: Option<Seq<char>>,
    memories: Option<Seq<char>>,
    skills: Option<Seq<char>>,
) -> Seq<Seq<char>> {
    let first = match system {
        Some(text) => Seq::<Seq<char>>::empty().push(text),
        None => Seq::empty(),
    };
    let second = match agents {
        Some(text) => first.push(titled("AGENTS.md Instructions"@, text)),
        None => first,
    };
    let third = match memories {
        Some(text) => second.push(titled("Memories"@, text)),
        None => second,
    };
    match skills {
        Some(text) => third.push(titled("Available Skills"@, text)),
        None => third,
    }
}

/// Puts the instructions of a session together.
pub fn initial_context(
    system: Option<String>,
    agents: Option<String>,
    memories: Option<String>,
    skills: Option<String>,
) -> (r: InitialContext)
    ensures
        r.instructions@ == join(
            filled_blocks(
                context_blocks(
                    opt_text(system),
                    opt_text(agents),
                    opt_text(memories),
                    opt_text(skills),
                ),
            ),
            "\n\n"@,
        ),
{
    let ghost all = context_blocks(
        opt_text(system),
        opt_text(agents),
        opt_text(memories),
        opt_text(skills),
    );
    let mut blocks: Vec<String> = Vec::new();
    if let Some(text) = system {
        blocks.push(text);
    }
    if let Some(text) = agents {
        blocks.push(instruction_block("AGENTS.md Instructions", text.as_str()));
    }
    if let Some(text) = memories {
        blocks.push(instruction_block("Memories", text.as_str()));
    }
    if let Some(text) = skills {
        blocks.push(instruction_block("Available Skills", text.as_str()));
    }
    assert(texts(blocks@) =~= all);
    InitialContext { instructions: join_instruction_blocks(&blocks) }
}

/// The instructions of a scheduled task: its prompt alone.
pub fn cron_context(prompt: Option<String>) -> (r: InitialContext)
    ensures
        r.instructions@ == given_or_empty(opt_text(prompt)),
{
    let instructions = match prompt {
        Some(text) => text,
        None => String::new(),
    };
    assert(instructions@ =~= given_or_empty(opt_text(prompt)));
    InitialContext { instructions }
}

/// The instructions as they are logged.
pub fn render_initial_context_for_log(context: &InitialContext) -> (r: String)
    ensures
        r@ == if is_blank(context.instructions@) {
            "<empty>"@
        } else {
            "----- instructions -----\n"@ + context.instructions@
        },
{
    if blank(context.instructions.as_str()) {
        return String::from_str("<empty>");
    }
    let mut out = String::from_str("----- instructions -----\n");
    out.append(context.instructions.as_str());
    out
}

proof fn lemma_filled_place(blocks: Seq<Seq<char>>, i: int) -> (k: int)
    requires
        0 <= i < blocks.len(),
        !is_blank(blocks[i]),
    ensures
        0 <= k < filled_blocks(blocks).len(),
        filled_blocks(blocks)[k] == trim(blocks[i]),
    decreases blocks.len(),
{
    let front = blocks.drop_last();
    let before = filled_blocks(front);
    if i == blocks.len() - 1 {
        before.len() as int
    } else {
        assert(front[i] == blocks[i]);
        let k = lemma_filled_place(front, i);
        assert(filled_blocks(blocks)[k] == before[k]);
        k
    }
}

/// Every block that says something is told, without the white space around it.
pub proof fn law_every_block_is_told(blocks: Seq<Seq<char>>, i: int)
    requires
        0 <= i < blocks.len(),
        !is_blank(blocks[i]),
    ensures
        occurs(trim(blocks[i]), join(filled_blocks(blocks), "\n\n"@)),
{
    let k = lemma_filled_place(blocks, i);
    lemma_joined_part(filled_blocks(blocks), "\n\n"@, k);
}

/// Blocks that say nothing change nothing.
pub proof fn law_blank_blocks_are_left_out(blocks: Seq<Seq<char>>, blank: Seq<char>)
    requires
        is_blank(blank),
    ensures
        filled_blocks(blocks.push(blank)) == filled_blocks(blocks),
{
    assert(blocks.push(blank).drop_last() =~= blocks);
}

/// Whether a text says something up to its last character.
pub open spec fn ends_in_text(text: Seq<char>) -> bool {
    text.len() > 0 && !is_white(text[0]) && !is_white(text.last())
}

/// The instructions of a session hold its system prompt, the instructions of
/// its directories, its memories and its skills, as far as they are given.
pub proof fn law_every_instruction_is_told(
    system: Option<Seq<char>>,
    agents: Option<Seq<char>>,
    memories: Option<Seq<char>>,
    skills: Option<Seq<char>>,
)
    ensures
        ({
            let told = join(
                filled_blocks(context_blocks(system, agents, memories, skills)),
                "\n\n"@,
            );
            &&& system is Some && ends_in_text(system->0) ==> occurs(system->0, told)
            &&& agents is Some && ends_in_text(agents->0) ==> occurs(agents->0, told)
            &&& memories is Some && ends_in_text(memories->0) ==> occurs(memories->0, told)
            &&& skills is Some && ends_in_text(skills->0) ==> occurs(skills->0, told)
        }),
{
    let blocks = context_blocks(system, agents, memories, skills);
    let n1: int = if system is Some {
        1
    } else {
        0
    };
    let n2: int = n1 + if agents is Some {
        1int
    } else {
        0
    };
    let n3: int = n2 + if memories is Some {
        1int
    } else {
        0
    };
    if system is Some && ends_in_text(system->0) {
        assert(blocks[0] == system->0);
        lemma_solid_edges(system->0);
        law_every_block_is_told(blocks, 0);
    }
    if agents is Some && ends_in_text(agents->0) {
        lemma_titled_is_told(blocks, n1, "AGENTS.md Instructions"@, agents->0);
    }
    if memories is Some && ends_in_text(memories->0) {
        lemma_titled_is_told(blocks, n2, "Memories"@, memories->0);
    }
    if skills is Some && ends_in_text(skills->0) {
        lemma_titled_is_told(blocks, n3, "Available Skills"@, skills->0);
    }
}

proof fn lemma_solid_edges(text: Seq<char>)
    requires
        ends_in_text(text),
    ensures
        trim(text) == text,
{
    lemma_trimmed(Seq::empty(), text, Seq::empty());
    assert(Seq::<char>::empty() + text + Seq::<char>::empty() =~= text);
}

proof fn lemma_titled_is_told(
    blocks: Seq<Seq<char>>,
    i: int,
    title: Seq<char>,
    text: Seq<char>,
)
    requires
        0 <= i < blocks.len(),
        blocks[i] == titled(title, text),
        ends_in_text(text),
    ensures
        occurs(text, join(filled_blocks(blocks), "\n\n"@)),
{
    reveal_strlit("## ");
    let block = titled(title, text);
    assert(block[0] == '#');
    assert(block.last() == text.last());
    lemma_solid_edges(block);
    law_every_block_is_told(blocks, i);
    let head = "## "@ + title + "\n"@;
    lemma_occurs_between(head, text, Seq::empty());
    assert(head + text + Seq::<char>::empty() =~= block);
    lemma_occurs_within(text, block, join(filled_blocks(blocks), "\n\n"@));
}

} // verus!
