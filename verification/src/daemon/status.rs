//! The daemon's report on itself.

use crate::context::mems::memory_key_from_path;
use crate::numbers::{dec, decimal, decimal_usize, parse_unsigned, parsed};
use crate::text::{
    chars_of, has_prefix, is_white, join, lemma_trimmed, lemma_words_of_joined, lines, lines_of,
    occurs, occurs_at, trim, trimmed, views, words, words_of,
};
use vstd::prelude::*;
use vstd::slice::slice_subrange;

verus! {

/// What the daemon keeps.
#[derive(Debug, Clone, Copy, PartialEq, Eq, Structural)]
pub struct ServiceStatusCounts {
    /// Memories of everybody.
    pub global_memories: usize,
    /// Memories of the user.
    pub user_memories: usize,
    /// Skills of the user.
    pub user_skills: usize,
    /// Scheduled tasks.
    pub cron_tasks: usize,
}

/// Whether a file is a memory.
pub fn is_status_memory_file(path: &str) -> (r: bool)
    ensures
        r == (crate::context::mems::memory_key(path@) is Some),
{
    memory_key_from_path(path).is_some()
}

/// Whether a line of a schedule is a task: not blank, no comment, and with the
/// five times and something to do.
pub open spec fn is_task_line(line: Seq<char>) -> bool {
    let text = trim(line);
    text.len() > 0 && text[0] != '#' && words(text).len() >= 6
}

/// The number of tasks in the lines of a schedule.
pub open spec fn task_count(ls: Seq<Seq<char>>) -> nat
    decreases ls.len(),
{
    if ls.len() == 0 {
        0
    } else {
        task_count(ls.drop_last()) + if is_task_line(ls.last()) {
            1nat
        } else {
            0nat
        }
    }
}

/// Counts the tasks of a schedule.
pub fn count_cron_file_tasks(raw: &str) -> (r: usize)
    ensures
        r == task_count(lines(raw@)),
{
    let cs = chars_of(raw);
    let ls = lines_of(&cs);
    let ghost all = views(ls@);
    let mut total: usize = 0;
    let mut i: usize = 0;
    assert(all.take(0) =~= Seq::<Seq<char>>::empty());
    while i < ls.len()
        invariant
            i <= ls@.len(),
            all == views(ls@),
            total == task_count(all.take(i as int)),
            total <= i,
        decreases ls@.len() - i,
    {
        assert(all.take(i + 1).drop_last() =~= all.take(i as int));
        assert(all.take(i + 1).last() == ls@[i as int]@);
        let text = trimmed(&ls[i]);
        if text.len() > 0 && text[0] != '#' && words_of(text).len() >= 6 {
            total += 1;
        }
        i += 1;
    }
    assert(all.take(all.len() as int) =~= all);
    total
}

/// The place behind the last closing parenthesis.
pub open spec fn behind_parenthesis(s: Seq<char>) -> Option<nat>
    decreases s.len(),
{
    if s.len() == 0 {
        None
    } else if s.last() == ')' {
        Some(s.len())
    } else {
        behind_parenthesis(s.drop_last())
    }
}

/// The number in a field of a list.
pub open spec fn field_number(fields: Seq<Seq<char>>, i: int) -> Option<nat> {
    if i < fields.len() {
        parsed(fields[i], u64::MAX as nat)
    } else {
        None
    }
}

/// The ticks that a process has used and the tick at which it started, out of
/// its `stat` file. Its name stands in parentheses and may hold anything, so
/// the fields are counted from the last closing one, and the space behind it
/// (or another character of one byte) is skipped.
pub open spec fn process_ticks(raw: Seq<char>) -> Option<(nat, nat)> {
    match behind_parenthesis(raw) {
        Some(n) => if n >= raw.len() || raw[n as int] > '\x7f' {
            None
        } else {
            let fields = words(raw.skip(n as int + 1));
            match (field_number(fields, 11), field_number(fields, 12), field_number(fields, 19)) {
                (Some(user), Some(system), Some(start)) => Some(
                    (
                        if user + system > u64::MAX {
                            u64::MAX as nat
                        } else {
                            user + system
                        },
                        start,
                    ),
                ),
                _ => None,
            }
        },
        None => None,
    }
}

fn number_at(fields: &Vec<Vec<char>>, i: usize) -> (r: Option<u64>)
    ensures
        match r {
            Some(n) => field_number(views(fields@), i as int) == Some(n as nat),
            None => field_number(views(fields@), i as int) is None,
        },
{
    if i < fields.len() {
        assert(views(fields@)[i as int] == fields@[i as int]@);
        match parse_unsigned(&fields[i], u64::MAX as u128) {
            Some(n) => Some(n as u64),
            None => None,
        }
    } else {
        None
    }
}

/// Reads the `stat` file of a process.
pub fn parse_proc_self_stat(raw: &str) -> (r: Option<(u64, u64)>)
    ensures
        match r {
            Some((used, start)) => process_ticks(raw@) == Some((used as nat, start as nat)),
            None => process_ticks(raw@) is None,
        },
{
    let cs = chars_of(raw);
    let mut n: usize = cs.len();
    assert(cs@.take(n as int) =~= cs@);
    while n > 0 && cs[n - 1] != ')'
        invariant
            n <= cs@.len(),
            behind_parenthesis(cs@) == behind_parenthesis(cs@.take(n as int)),
        decreases n,
    {
        assert(cs@.take(n as int).drop_last() =~= cs@.take(n - 1));
        n -= 1;
    }
    if n == 0 {
        return None;
    }
    assert(cs@.take(n as int).last() == ')');
    if n == cs.len() || cs[n] > '\x7f' {
        return None;
    }
    let rest = slice_subrange(&cs, n + 1, cs.len());
    assert(rest@ =~= cs@.skip(n + 1));
    let fields = words_of(rest);
    match (number_at(&fields, 11), number_at(&fields, 12), number_at(&fields, 19)) {
        (Some(user), Some(system), Some(start)) => Some((user.saturating_add(system), start)),
        _ => None,
    }
}

/// The size in a line of a `status` file, which counts kilobytes.
pub open spec fn status_bytes(value: Seq<char>) -> Option<nat> {
    let parts = words(value);
    if parts.len() == 0 {
        None
    } else {
        match parsed(parts[0], u64::MAX as nat) {
            Some(kb) => Some(
                if kb * 1024 > u64::MAX {
                    u64::MAX as nat
                } else {
                    kb * 1024
                },
            ),
            None => None,
        }
    }
}

fn parse_status_kb(value: &[char]) -> (r: Option<u64>)
    ensures
        match r {
            Some(n) => status_bytes(value@) == Some(n as nat),
            None => status_bytes(value@) is None,
        },
{
    let parts = words_of(value);
    if parts.len() == 0 {
        return None;
    }
    assert(views(parts@)[0] == parts@[0]@);
    match parse_unsigned(&parts[0], u64::MAX as u128) {
        Some(n) => if n > (u64::MAX / 1024) as u128 {
            Some(u64::MAX)
        } else {
            Some((n * 1024) as u64)
        },
        None => None,
    }
}

/// The memory of a process.
pub struct MemoryFigures {
    pub resident: Option<nat>,
    pub virtual_size: Option<nat>,
}

/// The memory of a process, out of the lines of its `status` file; the last
/// line of each kind counts.
pub open spec fn memory_figures(ls: Seq<Seq<char>>) -> MemoryFigures
    decreases ls.len(),
{
    if ls.len() == 0 {
        MemoryFigures { resident: None, virtual_size: None }
    } else {
        let known = memory_figures(ls.drop_last());
        let line = ls.last();
        if "VmRSS:"@.is_prefix_of(line) {
            MemoryFigures { resident: status_bytes(line.skip(6)), ..known }
        } else if "VmSize:"@.is_prefix_of(line) {
            MemoryFigures { virtual_size: status_bytes(line.skip(7)), ..known }
        } else {
            known
        }
    }
}

/// An optional machine number as a mathematical one.
pub open spec fn opt_nat(n: Option<u64>) -> Option<nat> {
    match n {
        Some(v) => Some(v as nat),
        None => None,
    }
}

/// Reads the memory of a process out of its `status` file.
pub fn process_memory(status: &str) -> (r: (Option<u64>, Option<u64>))
    ensures
        opt_nat(r.0) == memory_figures(lines(status@)).resident,
        opt_nat(r.1) == memory_figures(lines(status@)).virtual_size,
{
    proof {
        reveal_strlit("VmRSS:");
        reveal_strlit("VmSize:");
    }
    let cs = chars_of(status);
    let ls = lines_of(&cs);
    let ghost all = views(ls@);
    let rss_mark = chars_of("VmRSS:");
    let size_mark = chars_of("VmSize:");
    let mut rss: Option<u64> = None;
    let mut virt: Option<u64> = None;
    let mut i: usize = 0;
    assert(all.take(0) =~= Seq::<Seq<char>>::empty());
    while i < ls.len()
        invariant
            i <= ls@.len(),
            all == views(ls@),
            rss_mark@ == "VmRSS:"@,
            rss_mark@.len() == 6,
            size_mark@ == "VmSize:"@,
            size_mark@.len() == 7,
            opt_nat(rss) == memory_figures(all.take(i as int)).resident,
            opt_nat(virt) == memory_figures(all.take(i as int)).virtual_size,
        decreases ls@.len() - i,
    {
        assert(all.take(i + 1).drop_last() =~= all.take(i as int));
        assert(all.take(i + 1).last() == ls@[i as int]@);
        let line = &ls[i];
        if has_prefix(line, &rss_mark) {
            let value = slice_subrange(line, 6, line.len());
            assert(value@ =~= line@.skip(6));
            rss = parse_status_kb(value);
        } else if has_prefix(line, &size_mark) {
            let value = slice_subrange(line, 7, line.len());
            assert(value@ =~= line@.skip(7));
            virt = parse_status_kb(value);
        }
        i += 1;
    }
    assert(all.take(all.len() as int) =~= all);
    (rss, virt)
}

/// The report: the context of the session, the running sessions, what the
/// daemon keeps, and what the process uses.
pub open spec fn status_text(
    used_tokens: nat,
    max_context_tokens: nat,
    active_conversations: nat,
    counts: ServiceStatusCounts,
    memory: Seq<char>,
    cpu: Seq<char>,
) -> Seq<char> {
    "状态\n上下文: "@ + dec(used_tokens) + " / "@ + dec(max_context_tokens) + " tokens\n活跃会话: "@ + dec(
        active_conversations,
    ) + "\n记忆: 全局 "@ + dec(counts.global_memories as nat) + ", 个人 "@ + dec(
        counts.user_memories as nat,
    ) + "\n技能: 个人 "@ + dec(counts.user_skills as nat) + "\n定时任务: "@ + dec(
        counts.cron_tasks as nat,
    ) + "\n服务: rss "@ + memory + ", cpu "@ + cpu
}

/// Writes the report, given what the process uses as texts.
pub fn render_status_reply(
    used_tokens: u64,
    max_context_tokens: u64,
    active_conversations: usize,
    counts: &ServiceStatusCounts,
    memory: &str,
    cpu: &str,
) -> (r: String)
    ensures
        r@ == status_text(
            used_tokens as nat,
            max_context_tokens as nat,
            active_conversations as nat,
            *counts,
            memory@,
            cpu@,
        ),
{
    let mut out = String::from_str("状态\n上下文: ");
    out.append(decimal(used_tokens as u128).as_str());
    out.append(" / ");
    out.append(decimal(max_context_tokens as u128).as_str());
    out.append(" tokens\n活跃会话: ");
    out.append(decimal_usize(active_conversations).as_str());
    out.append("\n记忆: 全局 ");
    out.append(decimal_usize(counts.global_memories).as_str());
    out.append(", 个人 ");
    out.append(decimal_usize(counts.user_memories).as_str());
    out.append("\n技能: 个人 ");
    out.append(decimal_usize(counts.user_skills).as_str());
    out.append("\n定时任务: ");
    out.append(decimal_usize(counts.cron_tasks).as_str());
    out.append("\n服务: rss ");
    out.append(memory);
    out.append(", cpu ");
    out.append(cpu);
    out
}

/// A line is a task where it has at least six words and is no comment; white
/// space around it does not count.
pub proof fn law_tasks_have_times_and_work(before: Seq<char>, own: Seq<char>, after: Seq<char>)
    requires
        own.len() > 0,
        !is_white(own[0]),
        !is_white(own.last()),
        forall|i: int| 0 <= i < before.len() ==> is_white(#[trigger] before[i]),
        forall|i: int| 0 <= i < after.len() ==> is_white(#[trigger] after[i]),
    ensures
        is_task_line(before + own + after) <==> own[0] != '#' && words(own).len() >= 6,
{
    lemma_trimmed(before, own, after);
}

/// A line of white space is no task, and the tasks of a schedule are those of
/// its parts together.
pub proof fn law_tasks_add_up(a: Seq<Seq<char>>, b: Seq<Seq<char>>, line: Seq<char>)
    ensures
        task_count(a + b) == task_count(a) + task_count(b),
        task_count(Seq::empty()) == 0,
        task_count(seq![line]) == if is_task_line(line) {
            1nat
        } else {
            0nat
        },
        (forall|i: int| 0 <= i < line.len() ==> is_white(#[trigger] line[i])) ==> !is_task_line(
            line,
        ),
    decreases b.len(),
{
    reveal_with_fuel(task_count, 2);
    assert(seq![line].drop_last() =~= Seq::<Seq<char>>::empty());
    if forall|i: int| 0 <= i < line.len() ==> is_white(#[trigger] line[i]) {
        lemma_white_is_blank(line);
    }
    if b.len() == 0 {
        assert(a + b =~= a);
    } else {
        law_tasks_add_up(a, b.drop_last(), line);
        assert((a + b).drop_last() =~= a + b.drop_last());
    }
}

proof fn lemma_white_is_blank(s: Seq<char>)
    requires
        forall|i: int| 0 <= i < s.len() ==> is_white(#[trigger] s[i]),
    ensures
        trim(s).len() == 0,
    decreases s.len(),
{
    if s.len() > 0 {
        let rest = s.skip(1);
        assert forall|i: int| 0 <= i < rest.len() implies is_white(#[trigger] rest[i]) by {
            assert(rest[i] == s[i + 1]);
        }
        lemma_white_is_blank(rest);
        assert(is_white(s[0]));
    }
}

proof fn lemma_behind_parenthesis(front: Seq<char>, rest: Seq<char>)
    requires
        !rest.contains(')'),
    ensures
        behind_parenthesis(front.push(')') + rest) == Some(front.len() + 1),
    decreases rest.len(),
{
    let s = front.push(')') + rest;
    if rest.len() == 0 {
        assert(s =~= front.push(')'));
    } else {
        let shorter = rest.drop_last();
        assert(rest.contains(rest.last()));
        if shorter.contains(')') {
            let k = choose|k: int| 0 <= k < shorter.len() && shorter[k] == ')';
            assert(rest[k] == ')');
        }
        lemma_behind_parenthesis(front, shorter);
        assert(s.drop_last() =~= front.push(')') + shorter);
    }
}

/// Behind the name of the process, whatever it holds, the twelfth and the
/// thirteenth field are the ticks that were used, and the twentieth is the tick
/// of the start.
pub proof fn law_ticks_are_read_behind_the_name(
    front: Seq<char>,
    fields: Seq<Seq<char>>,
    user: nat,
    system: nat,
    start: nat,
)
    requires
        fields.len() >= 20,
        forall|i: int| 0 <= i < fields.len() ==> (#[trigger] fields[i]).len() > 0,
        forall|i: int, k: int|
            0 <= i < fields.len() && 0 <= k < fields[i].len() ==> !is_white(
                #[trigger] fields[i][k],
            ),
        !join(fields, " "@).contains(')'),
        parsed(fields[11], u64::MAX as nat) == Some(user),
        parsed(fields[12], u64::MAX as nat) == Some(system),
        parsed(fields[19], u64::MAX as nat) == Some(start),
        user + system <= u64::MAX,
    ensures
        process_ticks(front.push(')') + seq![' '] + join(fields, " "@)) == Some(
            (user + system, start),
        ),
{
    let tail = join(fields, " "@);
    let rest = seq![' '] + tail;
    let raw = front.push(')') + seq![' '] + tail;
    assert(raw =~= front.push(')') + rest);
    if rest.contains(')') {
        let k = choose|k: int| 0 <= k < rest.len() && rest[k] == ')';
        assert(tail[k - 1] == ')');
    }
    lemma_behind_parenthesis(front, rest);
    assert(raw.skip((front.len() + 2) as int) =~= tail);
    lemma_words_of_joined(fields);
}

/// A size is the first number of its line, in kilobytes.
pub proof fn law_sizes_are_in_kilobytes(parts: Seq<Seq<char>>, kb: nat)
    requires
        parts.len() > 0,
        forall|i: int| 0 <= i < parts.len() ==> (#[trigger] parts[i]).len() > 0,
        forall|i: int, k: int|
            0 <= i < parts.len() && 0 <= k < parts[i].len() ==> !is_white(#[trigger] parts[i][k]),
        parsed(parts[0], u64::MAX as nat) == Some(kb),
        kb * 1024 <= u64::MAX,
    ensures
        status_bytes(join(parts, " "@)) == Some(kb * 1024),
{
    lemma_words_of_joined(parts);
}

/// The line of the resident memory and that of the addressed memory each set
/// their own figure, and other lines set none.
pub proof fn law_memory_is_read_from_its_lines(
    ls: Seq<Seq<char>>,
    value: Seq<char>,
    other: Seq<char>,
)
    requires
        other.len() == 0 || other[0] != 'V',
    ensures
        ({
            let line = seq!['V', 'm', 'R', 'S', 'S', ':'] + value;
            &&& memory_figures(ls.push(line)).resident == status_bytes(value)
            &&& memory_figures(ls.push(line)).virtual_size == memory_figures(ls).virtual_size
        }),
        ({
            let line = seq!['V', 'm', 'S', 'i', 'z', 'e', ':'] + value;
            &&& memory_figures(ls.push(line)).virtual_size == status_bytes(value)
            &&& memory_figures(ls.push(line)).resident == memory_figures(ls).resident
        }),
        memory_figures(ls.push(other)) == memory_figures(ls),
        memory_figures(Seq::empty()).resident is None,
        memory_figures(Seq::empty()).virtual_size is None,
{
    reveal_strlit("VmRSS:");
    reveal_strlit("VmSize:");
    let rss = seq!['V', 'm', 'R', 'S', 'S', ':'] + value;
    let size = seq!['V', 'm', 'S', 'i', 'z', 'e', ':'] + value;
    assert(ls.push(rss).drop_last() =~= ls && ls.push(size).drop_last() =~= ls
        && ls.push(other).drop_last() =~= ls);
    assert("VmRSS:"@ =~= rss.subrange(0, 6));
    assert("VmSize:"@ =~= size.subrange(0, 7));
    assert(rss.skip(6) =~= value && size.skip(7) =~= value);
    if "VmRSS:"@.is_prefix_of(size) {
        assert(size.subrange(0, 6)[2] == "VmRSS:"@[2]);
    }
    if "VmRSS:"@.is_prefix_of(other) {
        assert(other.subrange(0, 6)[0] == "VmRSS:"@[0]);
    }
    if "VmSize:"@.is_prefix_of(other) {
        assert(other.subrange(0, 7)[0] == "VmSize:"@[0]);
    }
}

/// The report tells how full the context is, how many sessions run, what is
/// kept of memories, skills and tasks, and what the process uses.
pub proof fn law_the_report_tells_all(
    used: nat,
    limit: nat,
    active: nat,
    counts: ServiceStatusCounts,
    memory: Seq<char>,
    cpu: Seq<char>,
)
    ensures
        ({
            let said = status_text(used, limit, active, counts, memory, cpu);
            &&& occurs("状态\n上下文: "@ + dec(used), said)
            &&& occurs(" / "@ + dec(limit), said)
            &&& occurs(" tokens\n活跃会话: "@ + dec(active), said)
            &&& occurs("\n记忆: 全局 "@ + dec(counts.global_memories as nat), said)
            &&& occurs(", 个人 "@ + dec(counts.user_memories as nat), said)
            &&& occurs("\n技能: 个人 "@ + dec(counts.user_skills as nat), said)
            &&& occurs("\n定时任务: "@ + dec(counts.cron_tasks as nat), said)
            &&& occurs("\n服务: rss "@ + memory, said)
            &&& occurs(", cpu "@ + cpu, said)
        }),
{
    let said = status_text(used, limit, active, counts, memory, cpu);
    let s0 = "状态\n上下文: "@ + dec(used);
    let s1 = s0 + " / "@ + dec(limit);
    let s2 = s1 + " tokens\n活跃会话: "@ + dec(active);
    let s3 = s2 + "\n记忆: 全局 "@ + dec(counts.global_memories as nat);
    let s4 = s3 + ", 个人 "@ + dec(counts.user_memories as nat);
    let s5 = s4 + "\n技能: 个人 "@ + dec(counts.user_skills as nat);
    let s6 = s5 + "\n定时任务: "@ + dec(counts.cron_tasks as nat);
    let s7 = s6 + "\n服务: rss "@ + memory;
    let s8 = s7 + ", cpu "@ + cpu;
    assert(s8 == said);
    assert(s8.is_prefix_of(said));
    lemma_told_after(s7, ", cpu "@, cpu, said);
    lemma_told_after(s6, "\n服务: rss "@, memory, said);
    lemma_told_after(s5, "\n定时任务: "@, dec(counts.cron_tasks as nat), said);
    lemma_told_after(s4, "\n技能: 个人 "@, dec(counts.user_skills as nat), said);
    lemma_told_after(s3, ", 个人 "@, dec(counts.user_memories as nat), said);
    lemma_told_after(s2, "\n记忆: 全局 "@, dec(counts.global_memories as nat), said);
    lemma_told_after(s1, " tokens\n活跃会话: "@, dec(active), said);
    lemma_told_after(s0, " / "@, dec(limit), said);
    assert(s0.subrange(0, s0.len() as int) =~= s0);
    assert(occurs_at(s0, said, 0));
}

/// What stands behind the first part of a text occurs in it, as the text starts
/// with all of it.
proof fn lemma_told_after(front: Seq<char>, label: Seq<char>, value: Seq<char>, said: Seq<char>)
    requires
        (front + label + value).is_prefix_of(said),
    ensures
        occurs(label + value, said),
        front.is_prefix_of(said),
{
    let n = front.len() as int;
    let whole = front + label + value;
    assert(said.subrange(0, whole.len() as int) == whole);
    assert(said.subrange(0, n) =~= whole.subrange(0, n));
    assert(whole.subrange(0, n) =~= front);
    assert(said.subrange(n, whole.len() as int) =~= whole.subrange(n, whole.len() as int));
    assert(whole.subrange(n, whole.len() as int) =~= label + value);
    assert(occurs_at(label + value, said, n));
}

} // verus!
