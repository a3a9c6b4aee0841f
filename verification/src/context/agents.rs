//! Instructions from `AGENTS.md` files.

use crate::home::{join_path, joined, AppPaths};
use crate::path::{lineage, lineage_of};
use crate::text::{join, join_strings, same_text, texts};
use vstd::prelude::*;

verus! {

/// How many bytes of a file are read.
pub const MAX_AGENTS_BYTES: usize = 32768;

/// The file with the user's own instructions.
pub fn global_agents_path(paths: &AppPaths) -> (r: String)
    ensures
        r@ == joined(paths.codex_home@, "AGENTS.md"@),
{
    join_path(paths.codex_home.as_str(), "AGENTS.md")
}

/// The places of instructions for a directory, from the outermost directory to
/// the directory itself.
pub open spec fn agents_places(cwd: Seq<char>) -> Seq<Seq<char>> {
    Seq::new(lineage(cwd).len(), |i: int| joined(lineage(cwd)[i], "AGENTS.md"@))
}

/// The places of instructions for a directory.
pub fn agents_candidates(cwd: &str) -> (r: Vec<String>)
    ensures
        texts(r@) == agents_places(cwd@),
{
    let dirs = lineage_of(cwd);
    let ghost all = lineage(cwd@);
    let mut out: Vec<String> = Vec::new();
    let mut i: usize = 0;
    while i < dirs.len()
        invariant
            i <= dirs@.len(),
            all == texts(dirs@),
            all == lineage(cwd@),
            out@.len() == i,
            forall|k: int| 0 <= k < i ==> (#[trigger] out@[k])@ == agents_places(cwd@)[k],
        decreases dirs@.len() - i,
    {
        assert(all[i as int] == dirs@[i as int]@);
        let place = join_path(dirs[i].as_str(), "AGENTS.md");
        assert(place@ == agents_places(cwd@)[i as int]);
        out.push(place);
        i += 1;
    }
    assert(texts(out@) =~= agents_places(cwd@));
    out
}

/// The places of a list that are among the given files, in the order of the
/// list.
pub open spec fn present(places: Seq<Seq<char>>, files: Seq<Seq<char>>) -> Seq<Seq<char>>
    decreases places.len(),
{
    if places.len() == 0 {
        places
    } else {
        let before = present(places.drop_last(), files);
        if files.contains(places.last()) {
            before.push(places.last())
        } else {
            before
        }
    }
}

fn among(files: &Vec<String>, path: &str) -> (r: bool)
    ensures
        r == texts(files@).contains(path@),
{
    let mut i: usize = 0;
    while i < files.len()
        invariant
            i <= files@.len(),
            forall|k: int| 0 <= k < i ==> texts(files@)[k] != path@,
        decreases files@.len() - i,
    {
        if same_text(files[i].as_str(), path) {
            assert(texts(files@)[i as int] == path@);
            return true;
        }
        i += 1;
    }
    false
}

/// The files with instructions for a directory, given the files that exist:
/// those of outer directories come first.
pub fn project_agents_paths(cwd: &str, files: &Vec<String>) -> (r: Vec<String>)
    ensures
        texts(r@) == present(agents_places(cwd@), texts(files@)),
{
    let places = agents_candidates(cwd);
    let ghost all = agents_places(cwd@);
    let ghost known = texts(files@);
    let mut out: Vec<String> = Vec::new();
    let mut i: usize = 0;
    assert(all.take(0) =~= Seq::<Seq<char>>::empty());
    assert(texts(out@) =~= Seq::<Seq<char>>::empty());
    while i < places.len()
        invariant
            i <= places@.len(),
            all == texts(places@),
            known == texts(files@),
            texts(out@) == present(all.take(i as int), known),
        decreases places@.len() - i,
    {
        assert(all.take(i + 1).drop_last() =~= all.take(i as int));
        assert(all.take(i + 1).last() == places@[i as int]@);
        if among(files, places[i].as_str()) {
            let ghost before = texts(out@);
            out.push(places[i].clone());
            assert(texts(out@) =~= before.push(all[i as int]));
        }
        i += 1;
    }
    assert(all.take(all.len() as int) =~= all);
    out
}

/// The instructions of all files together, for a directory; nothing where there
/// are none.
pub fn agents_instructions(cwd: &str, docs: &Vec<String>) -> (r: Option<String>)
    ensures
        match r {
            Some(text) => docs@.len() > 0 && text@ == "# AGENTS.md instructions for "@ + cwd@
                + "\n\n<INSTRUCTIONS>\n"@ + join(texts(docs@), "\n\n--- project-doc ---\n\n"@)
                + "\n</INSTRUCTIONS>"@,
            None => docs@.len() == 0,
        },
{
    if docs.len() == 0 {
        return None;
    }
    let mut out = String::from_str("# AGENTS.md instructions for ");
    out.append(cwd);
    out.append("\n\n<INSTRUCTIONS>\n");
    out.append(join_strings(docs, "\n\n--- project-doc ---\n\n").as_str());
    out.append("\n</INSTRUCTIONS>");
    Some(out)
}

proof fn lemma_present(places: Seq<Seq<char>>, files: Seq<Seq<char>>)
    ensures
        present(places, files) == places.filter(|place: Seq<char>| files.contains(place)),
    decreases places.len(),
{
    reveal(Seq::filter);
    if places.len() > 0 {
        lemma_present(places.drop_last(), files);
    } else {
        assert(present(places, files) =~= places.filter(|place: Seq<char>| files.contains(place)));
    }
}

/// The files with instructions for a directory are all that exist in it and
/// the directories it stands in, and no others, the outermost first.
pub proof fn law_all_instructions_are_found(cwd: Seq<char>, files: Seq<Seq<char>>)
    ensures
        present(agents_places(cwd), files) == lineage(cwd).map_values(
            |dir: Seq<char>| joined(dir, seq!['A', 'G', 'E', 'N', 'T', 'S', '.', 'm', 'd']),
        ).filter(|place: Seq<char>| files.contains(place)),
{
    reveal_strlit("AGENTS.md");
    assert("AGENTS.md"@ =~= seq!['A', 'G', 'E', 'N', 'T', 'S', '.', 'm', 'd']);
    lemma_present(agents_places(cwd), files);
    assert(agents_places(cwd) =~= lineage(cwd).map_values(
        |dir: Seq<char>| joined(dir, seq!['A', 'G', 'E', 'N', 'T', 'S', '.', 'm', 'd']),
    ));
}

} // verus!
