//! What the daemon uses, as it is shown on request.

use crate::channel::capability::ChannelCapabilities;
use crate::home::AppPaths;
use crate::numbers::{dec, decimal, decimal_usize};
use crate::sorting::{in_order, inserted, lemma_inserted_at, orders, sorted};
use crate::text::{
    chars_of, lemma_occurs_between, lemma_occurs_within, occurs, occurs_at, same_text, texts, trim,
    trimmed_text,
};
use vstd::prelude::*;

verus! {

/// What one of the daemon's parts holds.
#[derive(Debug, PartialEq, Eq)]
pub struct ResourceUsage {
    /// The part.
    pub name: String,
    /// What kind of store it is.
    pub kind: String,
    /// How many items it holds.
    pub items: usize,
    /// How many items it has room for, where that is known.
    pub capacity: Option<usize>,
    /// About how many bytes it takes.
    pub estimated_bytes: usize,
}

/// A channel.
#[derive(Debug, Clone, PartialEq, Eq)]
pub struct ChannelResource {
    /// Its name.
    pub name: String,
    /// Its platform.
    pub platform: String,
    /// What it is able to do.
    pub capabilities: ChannelCapabilities,
}

/// A directory.
#[derive(Debug, Clone, PartialEq, Eq)]
pub struct PathResource {
    /// What it holds.
    pub name: String,
    /// Where it is.
    pub path: String,
    /// How many files are in it.
    pub files: u64,
    /// How many bytes they take.
    pub bytes: u64,
}

/// What the daemon uses.
#[derive(Debug, PartialEq, Eq)]
pub struct ResourceSnapshot {
    /// The id of the process.
    pub pid: u32,
    /// Memory that is in use, where that is known.
    pub rss_bytes: Option<u64>,
    /// Memory that is addressed, where that is known.
    pub virtual_bytes: Option<u64>,
    /// How many sessions there are.
    pub session_count: usize,
    /// How many locks of sessions there are.
    pub session_lock_count: usize,
    /// How many turns are running.
    pub active_turn_count: usize,
    /// How many more scheduled tasks may run at the same time.
    pub cron_available_permits: usize,
    /// The channels.
    pub channels: Vec<ChannelResource>,
    /// What the daemon's parts hold.
    pub memory: Vec<ResourceUsage>,
    /// The directories.
    pub paths: Vec<PathResource>,
}

/// Whether a request asks for what the daemon uses.
pub fn is_resources_command(request: &str) -> (r: bool)
    ensures
        r == (trim(request@) == "resources"@),
{
    let text = trimmed_text(request);
    same_text(text.as_str(), "resources")
}

/// The files and the bytes of a directory with those of one more file or
/// directory in it; the largest numbers stay.
pub fn add_usage(total: (u64, u64), files: u64, bytes: u64) -> (r: (u64, u64))
    ensures
        r.0 == if total.0 + files > u64::MAX {
            u64::MAX as int
        } else {
            total.0 + files
        },
        r.1 == if total.1 + bytes > u64::MAX {
            u64::MAX as int
        } else {
            total.1 + bytes
        },
{
    (total.0.saturating_add(files), total.1.saturating_add(bytes))
}

/// The directories that are shown, by name.
pub open spec fn shown_dirs(paths: AppPaths) -> Seq<(Seq<char>, Seq<char>)> {
    Seq::<(Seq<char>, Seq<char>)>::empty().push(("sessions"@, paths.sessions_dir@)).push(
        ("channel_store"@, paths.channel_store_dir@),
    ).push(("mems"@, paths.mems_dir@)).push(("skills"@, paths.skills_dir@)).push(
        ("crons"@, paths.crons_dir@),
    ).push(("plans"@, paths.plans_dir@))
}

/// Lists the directories that are shown.
pub fn resource_dirs(paths: &AppPaths) -> (r: Vec<(String, String)>)
    ensures
        Seq::new(r@.len(), |i: int| (r@[i].0@, r@[i].1@)) == shown_dirs(*paths),
{
    let mut out: Vec<(String, String)> = Vec::new();
    out.push((String::from_str("sessions"), paths.sessions_dir.clone()));
    out.push((String::from_str("channel_store"), paths.channel_store_dir.clone()));
    out.push((String::from_str("mems"), paths.mems_dir.clone()));
    out.push((String::from_str("skills"), paths.skills_dir.clone()));
    out.push((String::from_str("crons"), paths.crons_dir.clone()));
    out.push((String::from_str("plans"), paths.plans_dir.clone()));
    assert(Seq::new(out@.len(), |i: int| (out@[i].0@, out@[i].1@)) =~= shown_dirs(*paths));
    out
}

/// A text with spaces behind it up to a width.
pub open spec fn padded(s: Seq<char>, width: nat) -> Seq<char> {
    if s.len() >= width {
        s
    } else {
        s + Seq::new((width - s.len()) as nat, |i: int| ' ')
    }
}

/// Puts spaces behind a text up to a width.
pub fn pad_end(s: &str, width: usize) -> (r: String)
    ensures
        r@ == padded(s@, width as nat),
{
    let mut out = String::from_str(s);
    let mut n: usize = chars_of(s).len();
    let ghost len = s@.len();
    assert(out@ =~= s@ + Seq::new(0, |i: int| ' '));
    while n < width
        invariant
            len <= n,
            n <= width || n == len,
            len == s@.len(),
            out@ == s@ + Seq::new((n - len) as nat, |i: int| ' '),
        decreases width - n,
    {
        let ghost before = out@;
        out.push(' ');
        assert(before.push(' ') =~= s@ + Seq::new((n + 1 - len) as nat, |i: int| ' '));
        n += 1;
    }
    assert(out@ =~= padded(s@, width as nat));
    out
}

/// The contents of what a part holds.
pub struct UsageView {
    pub name: Seq<char>,
    pub kind: Seq<char>,
    pub items: nat,
    pub capacity: Option<nat>,
    pub estimated_bytes: nat,
}

impl View for ResourceUsage {
    type V = UsageView;

    open spec fn view(&self) -> UsageView {
        UsageView {
            name: self.name@,
            kind: self.kind@,
            items: self.items as nat,
            capacity: match self.capacity {
                Some(n) => Some(n as nat),
                None => None,
            },
            estimated_bytes: self.estimated_bytes as nat,
        }
    }
}

/// The contents of a list of parts.
pub open spec fn usages(list: Seq<ResourceUsage>) -> Seq<UsageView> {
    Seq::new(list.len(), |i: int| list[i]@)
}

/// The order of parts: what takes more comes first.
pub open spec fn usage_order() -> spec_fn(UsageView, UsageView) -> bool {
    |a: UsageView, b: UsageView| a.estimated_bytes > b.estimated_bytes
}

fn insert_usage(list: &mut Vec<usize>, memory: &Vec<ResourceUsage>, item: usize)
    requires
        item < memory@.len(),
        forall|k: int| 0 <= k < old(list)@.len() ==> (#[trigger] old(list)@[k]) < memory@.len(),
    ensures
        forall|k: int| 0 <= k < final(list)@.len() ==> (#[trigger] final(list)@[k]) < memory@.len(),
        picked(final(list)@, memory@) == inserted(
            picked(old(list)@, memory@),
            memory@[item as int]@,
            usage_order(),
        ),
{
    let ghost known = picked(list@, memory@);
    let ghost view = memory@[item as int]@;
    let ghost before = list@;
    let mut i: usize = list.len();
    while i > 0 && memory[item].estimated_bytes > memory[list[i - 1]].estimated_bytes
        invariant
            i <= list@.len(),
            item < memory@.len(),
            view == memory@[item as int]@,
            known == picked(list@, memory@),
            list@ == before,
            forall|k: int| 0 <= k < list@.len() ==> (#[trigger] list@[k]) < memory@.len(),
            forall|k: int|
                i <= k < list@.len() ==> usage_order()(view, #[trigger] known[k]),
        decreases i,
    {
        assert(known[i - 1] == memory@[list@[i - 1] as int]@);
        i -= 1;
    }
    proof {
        if i > 0 {
            assert(known[i - 1] == memory@[list@[i - 1] as int]@);
        }
        lemma_inserted_at(known, view, usage_order(), i as int);
    }
    list.insert(i, item);
    assert(list@ =~= before.insert(i as int, item));
    assert(picked(list@, memory@) =~= known.insert(i as int, view));
}

/// The parts at the given positions.
pub open spec fn picked(list: Seq<usize>, memory: Seq<ResourceUsage>) -> Seq<UsageView> {
    Seq::new(list.len(), |i: int| memory[list[i] as int]@)
}

/// The line that shows what a part holds.
pub open spec fn usage_line(u: UsageView) -> Seq<char> {
    let room = match u.capacity {
        Some(n) => dec(n),
        None => "-"@,
    };
    "  "@ + padded(u.name, 34) + " kind="@ + padded(u.kind, 8) + " items="@ + padded(
        dec(u.items),
        6,
    ) + " capacity="@ + padded(room, 6) + " estimated_bytes="@ + dec(u.estimated_bytes)
}

/// The lines that show what the daemon's parts hold: what takes most first.
pub open spec fn usage_lines(list: Seq<UsageView>) -> Seq<Seq<char>> {
    let order = sorted(list, usage_order());
    Seq::new(order.len(), |i: int| usage_line(order[i]))
}

fn usage_text(u: &ResourceUsage) -> (r: String)
    ensures
        r@ == usage_line(u@),
{
    let room = match u.capacity {
        Some(n) => decimal_usize(n),
        None => String::from_str("-"),
    };
    let mut out = String::from_str("  ");
    out.append(pad_end(u.name.as_str(), 34).as_str());
    out.append(" kind=");
    out.append(pad_end(u.kind.as_str(), 8).as_str());
    out.append(" items=");
    out.append(pad_end(decimal_usize(u.items).as_str(), 6).as_str());
    out.append(" capacity=");
    out.append(pad_end(room.as_str(), 6).as_str());
    out.append(" estimated_bytes=");
    out.append(decimal_usize(u.estimated_bytes).as_str());
    out
}

/// Writes the lines that show what the daemon's parts hold.
pub fn memory_lines(memory: &Vec<ResourceUsage>) -> (r: Vec<String>)
    ensures
        texts(r@) == usage_lines(usages(memory@)),
{
    let ghost all = usages(memory@);
    let mut order: Vec<usize> = Vec::new();
    let mut i: usize = 0;
    assert(all.take(0) =~= Seq::<UsageView>::empty());
    assert(picked(order@, memory@) =~= Seq::<UsageView>::empty());
    while i < memory.len()
        invariant
            i <= memory@.len(),
            all == usages(memory@),
            forall|k: int| 0 <= k < order@.len() ==> (#[trigger] order@[k]) < memory@.len(),
            picked(order@, memory@) == sorted(all.take(i as int), usage_order()),
        decreases memory@.len() - i,
    {
        assert(all.take(i + 1).drop_last() =~= all.take(i as int));
        assert(all.take(i + 1).last() == memory@[i as int]@);
        insert_usage(&mut order, memory, i);
        i += 1;
    }
    assert(all.take(all.len() as int) =~= all);
    let ghost ordered = sorted(all, usage_order());
    let mut out: Vec<String> = Vec::new();
    let mut j: usize = 0;
    while j < order.len()
        invariant
            j <= order@.len(),
            out@.len() == j,
            ordered == picked(order@, memory@),
            forall|k: int| 0 <= k < order@.len() ==> (#[trigger] order@[k]) < memory@.len(),
            forall|k: int| 0 <= k < j ==> (#[trigger] out@[k])@ == usage_line(ordered[k]),
        decreases order@.len() - j,
    {
        assert(ordered[j as int] == memory@[order@[j as int] as int]@);
        out.push(usage_text(&memory[order[j]]));
        j += 1;
    }
    assert(texts(out@) =~= usage_lines(all));
    out
}

/// A size that may not be known.
pub open spec fn size_text(bytes: Option<u64>) -> Seq<char> {
    match bytes {
        Some(n) => dec(n as nat),
        None => "unavailable"@,
    }
}

fn format_bytes(bytes: Option<u64>) -> (r: String)
    ensures
        r@ == size_text(bytes),
{
    match bytes {
        Some(n) => decimal(n as u128),
        None => String::from_str("unavailable"),
    }
}

/// A truth value in words.
pub open spec fn truth(b: bool) -> Seq<char> {
    if b {
        "true"@
    } else {
        "false"@
    }
}

fn truth_text(b: bool) -> (r: &'static str)
    ensures
        r@ == truth(b),
{
    if b {
        "true"
    } else {
        "false"
    }
}

/// The two lines that show a channel.
pub open spec fn channel_lines(c: ChannelResource) -> (Seq<char>, Seq<char>) {
    let caps = c.capabilities;
    (
        "  "@ + c.name@ + " ("@ + c.platform@ + ")"@,
        "    patch="@ + truth(caps.patch_message) + " append_update="@ + truth(caps.append_update)
            + " input="@ + truth(caps.request_user_input) + " reaction="@ + truth(caps.reaction_ack)
            + " text_ack="@ + truth(caps.text_ack) + " typing="@ + truth(caps.chat_action)
            + " reply="@ + truth(caps.reply_threading) + " inbound_attach="@ + truth(
            caps.inbound_attachments,
        ) + " outbound_attach="@ + truth(caps.outbound_attachments),
    )
}

fn channel_texts(c: &ChannelResource) -> (r: (String, String))
    ensures
        r.0@ == channel_lines(*c).0,
        r.1@ == channel_lines(*c).1,
{
    let mut name = String::from_str("  ");
    name.append(c.name.as_str());
    name.append(" (");
    name.append(c.platform.as_str());
    name.append(")");
    let caps = &c.capabilities;
    let mut able = String::from_str("    patch=");
    able.append(truth_text(caps.patch_message));
    able.append(" append_update=");
    able.append(truth_text(caps.append_update));
    able.append(" input=");
    able.append(truth_text(caps.request_user_input));
    able.append(" reaction=");
    able.append(truth_text(caps.reaction_ack));
    able.append(" text_ack=");
    able.append(truth_text(caps.text_ack));
    able.append(" typing=");
    able.append(truth_text(caps.chat_action));
    able.append(" reply=");
    able.append(truth_text(caps.reply_threading));
    able.append(" inbound_attach=");
    able.append(truth_text(caps.inbound_attachments));
    able.append(" outbound_attach=");
    able.append(truth_text(caps.outbound_attachments));
    (name, able)
}

/// The line that shows a directory.
pub open spec fn path_line(p: PathResource) -> Seq<char> {
    "  "@ + padded(p.name@, 14) + " files="@ + padded(dec(p.files as nat), 6) + " bytes="@ + padded(
        dec(p.bytes as nat),
        10,
    ) + " "@ + p.path@
}

fn path_text(p: &PathResource) -> (r: String)
    ensures
        r@ == path_line(*p),
{
    let mut out = String::from_str("  ");
    out.append(pad_end(p.name.as_str(), 14).as_str());
    out.append(" files=");
    out.append(pad_end(decimal(p.files as u128).as_str(), 6).as_str());
    out.append(" bytes=");
    out.append(pad_end(decimal(p.bytes as u128).as_str(), 10).as_str());
    out.append(" ");
    out.append(p.path.as_str());
    out
}

/// The lines that show the process and what runs in it.
pub open spec fn head_lines(s: ResourceSnapshot) -> Seq<Seq<char>> {
    Seq::<Seq<char>>::empty().push("process"@).push("  pid: "@ + dec(s.pid as nat)).push(
        "  rss: "@ + size_text(s.rss_bytes),
    ).push("  virtual: "@ + size_text(s.virtual_bytes)).push(""@).push("runtime"@).push(
        "  sessions: "@ + dec(s.session_count as nat),
    ).push("  session_locks: "@ + dec(s.session_lock_count as nat)).push(
        "  active_turns: "@ + dec(s.active_turn_count as nat),
    ).push("  cron_available_permits: "@ + dec(s.cron_available_permits as nat)).push(""@).push(
        "channels"@,
    )
}

/// The lines that show the channels.
pub open spec fn all_channel_lines(list: Seq<ChannelResource>) -> Seq<Seq<char>>
    decreases list.len(),
{
    if list.len() == 0 {
        Seq::empty()
    } else {
        let last = channel_lines(list.last());
        all_channel_lines(list.drop_last()).push(last.0).push(last.1)
    }
}

/// All lines that show what the daemon uses.
pub open spec fn snapshot_lines(s: ResourceSnapshot) -> Seq<Seq<char>> {
    let channels = head_lines(s) + all_channel_lines(s.channels@);
    let memory = channels.push(""@).push("memory"@) + usage_lines(usages(s.memory@));
    memory.push(""@).push("paths"@) + Seq::new(s.paths@.len(), |i: int| path_line(s.paths@[i]))
}

fn label(name: &str, value: &str) -> (r: String)
    ensures
        r@ == name@ + value@,
{
    let mut out = String::from_str(name);
    out.append(value);
    out
}

fn push_head(s: &ResourceSnapshot) -> (r: Vec<String>)
    ensures
        texts(r@) == head_lines(*s),
{
    let mut out: Vec<String> = Vec::new();
    out.push(String::from_str("process"));
    out.push(label("  pid: ", decimal(s.pid as u128).as_str()));
    out.push(label("  rss: ", format_bytes(s.rss_bytes).as_str()));
    out.push(label("  virtual: ", format_bytes(s.virtual_bytes).as_str()));
    out.push(String::from_str(""));
    out.push(String::from_str("runtime"));
    out.push(label("  sessions: ", decimal_usize(s.session_count).as_str()));
    out.push(label("  session_locks: ", decimal_usize(s.session_lock_count).as_str()));
    out.push(label("  active_turns: ", decimal_usize(s.active_turn_count).as_str()));
    out.push(
        label("  cron_available_permits: ", decimal_usize(s.cron_available_permits).as_str()),
    );
    out.push(String::from_str(""));
    out.push(String::from_str("channels"));
    assert(texts(out@) =~= head_lines(*s));
    out
}

/// Writes the lines that show what the daemon uses.
pub fn render_snapshot(s: &ResourceSnapshot) -> (r: Vec<String>)
    ensures
        texts(r@) == snapshot_lines(*s),
{
    let mut out = push_head(s);
    let ghost head = texts(out@);
    let ghost channels = s.channels@;
    let mut i: usize = 0;
    assert(channels.take(0) =~= Seq::<ChannelResource>::empty());
    assert(head + Seq::<Seq<char>>::empty() =~= head);
    while i < s.channels.len()
        invariant
            i <= s.channels@.len(),
            channels == s.channels@,
            texts(out@) == head + all_channel_lines(channels.take(i as int)),
        decreases s.channels@.len() - i,
    {
        assert(channels.take(i + 1).drop_last() =~= channels.take(i as int));
        let ghost known = texts(out@);
        let (name, able) = channel_texts(&s.channels[i]);
        let ghost lines = channel_lines(channels[i as int]);
        out.push(name);
        out.push(able);
        assert(texts(out@) =~= known.push(lines.0).push(lines.1));
        assert(texts(out@) =~= head + all_channel_lines(channels.take(i + 1)));
        i += 1;
    }
    assert(channels.take(channels.len() as int) =~= channels);
    let ghost first = texts(out@);
    out.push(String::from_str(""));
    out.push(String::from_str("memory"));
    assert(texts(out@) =~= first.push(""@).push("memory"@));
    let ghost second = texts(out@);
    let listed = memory_lines(&s.memory);
    let ghost more = texts(listed@);
    let mut j: usize = 0;
    assert(second + more.take(0) =~= second);
    while j < listed.len()
        invariant
            j <= listed@.len(),
            more == texts(listed@),
            texts(out@) == second + more.take(j as int),
        decreases listed@.len() - j,
    {
        let ghost known = texts(out@);
        out.push(listed[j].clone());
        assert(texts(out@) =~= known.push(more[j as int]));
        assert(more.take(j + 1) =~= more.take(j as int).push(more[j as int]));
        assert(texts(out@) =~= second + more.take(j + 1));
        j += 1;
    }
    assert(more.take(more.len() as int) =~= more);
    let ghost third = texts(out@);
    out.push(String::from_str(""));
    out.push(String::from_str("paths"));
    assert(texts(out@) =~= third.push(""@).push("paths"@));
    let ghost fourth = texts(out@);
    let ghost dirs = Seq::new(s.paths@.len(), |i: int| path_line(s.paths@[i]));
    let mut k: usize = 0;
    assert(fourth + dirs.take(0) =~= fourth);
    while k < s.paths.len()
        invariant
            k <= s.paths@.len(),
            dirs == Seq::new(s.paths@.len(), |i: int| path_line(s.paths@[i])),
            texts(out@) == fourth + dirs.take(k as int),
        decreases s.paths@.len() - k,
    {
        let ghost known = texts(out@);
        out.push(path_text(&s.paths[k]));
        assert(texts(out@) =~= known.push(dirs[k as int]));
        assert(dirs.take(k + 1) =~= dirs.take(k as int).push(dirs[k as int]));
        assert(texts(out@) =~= fourth + dirs.take(k + 1));
        k += 1;
    }
    assert(dirs.take(dirs.len() as int) =~= dirs);
    out
}

/// What takes most is shown first, and every part is shown.
pub proof fn law_largest_parts_come_first(list: Seq<UsageView>)
    ensures
        in_order(sorted(list, usage_order()), usage_order()),
        sorted(list, usage_order()).to_multiset() == list.to_multiset(),
{
    assert(orders(usage_order()));
    crate::sorting::law_sorting_orders(list, usage_order());
}

/// What is put into a column stays whole, and shorter texts are filled up to
/// the width with spaces.
pub proof fn law_columns_cut_nothing(s: Seq<char>, width: nat)
    ensures
        s.is_prefix_of(padded(s, width)),
        padded(s, width).len() >= width,
        s.len() <= width ==> padded(s, width).len() == width,
        s.len() > width ==> padded(s, width) == s,
        forall|i: int| s.len() <= i < padded(s, width).len() ==> padded(s, width)[i] == ' ',
{
    assert(padded(s, width).subrange(0, s.len() as int) =~= s);
}

proof fn lemma_shown_in_column(front: Seq<char>, s: Seq<char>, width: nat, rest: Seq<char>)
    ensures
        occurs(s, front + padded(s, width) + rest),
{
    let column = padded(s, width);
    law_columns_cut_nothing(s, width);
    assert(column.subrange(0, s.len() as int) =~= s);
    assert(occurs_at(s, column, 0));
    lemma_occurs_between(front, column, rest);
    lemma_occurs_within(s, column, front + column + rest);
}

/// The line of a part tells its name, how much it holds and how much it takes.
pub proof fn law_parts_are_told(u: UsageView)
    ensures
        occurs(u.name, usage_line(u)),
        occurs(" items="@ + dec(u.items), usage_line(u)),
        occurs(" estimated_bytes="@ + dec(u.estimated_bytes), usage_line(u)),
{
    let room = match u.capacity {
        Some(n) => dec(n),
        None => "-"@,
    };
    let line = usage_line(u);
    let a = "  "@ + padded(u.name, 34);
    let b = a + " kind="@ + padded(u.kind, 8);
    let items = padded(dec(u.items), 6);
    let c = b + " items="@ + items;
    let d = c + " capacity="@ + padded(room, 6);
    assert(occurs(u.name, line)) by {
        let rest = " kind="@ + padded(u.kind, 8) + " items="@ + items + " capacity="@ + padded(
            room,
            6,
        ) + " estimated_bytes="@ + dec(u.estimated_bytes);
        assert(line =~= "  "@ + padded(u.name, 34) + rest);
        lemma_shown_in_column("  "@, u.name, 34, rest);
    }
    assert(occurs(" items="@ + dec(u.items), line)) by {
        let told = " items="@ + dec(u.items);
        let rest = " capacity="@ + padded(room, 6) + " estimated_bytes="@ + dec(
            u.estimated_bytes,
        );
        assert(line =~= c + rest);
        law_columns_cut_nothing(dec(u.items), 6);
        assert(items.subrange(0, dec(u.items).len() as int) =~= dec(u.items));
        assert(c.subrange(b.len() as int, (b.len() + told.len()) as int) =~= told);
        assert(occurs_at(told, c, b.len() as int));
        lemma_occurs_between(Seq::empty(), c, rest);
        assert(Seq::<char>::empty() + c + rest =~= line);
        lemma_occurs_within(told, c, line);
    }
    assert(occurs(" estimated_bytes="@ + dec(u.estimated_bytes), line)) by {
        let told = " estimated_bytes="@ + dec(u.estimated_bytes);
        lemma_occurs_between(d, told, Seq::empty());
        assert(d + told + Seq::<char>::empty() =~= line);
    }
}

/// The line of a directory tells its name, how many files it holds, how much
/// they take, and where it is.
pub proof fn law_directories_are_told(p: PathResource)
    ensures
        occurs(p.name@, path_line(p)),
        occurs(" files="@ + dec(p.files as nat), path_line(p)),
        occurs(" bytes="@ + dec(p.bytes as nat), path_line(p)),
        p.path@.is_suffix_of(path_line(p)),
{
    let line = path_line(p);
    let files = padded(dec(p.files as nat), 6);
    let bytes = padded(dec(p.bytes as nat), 10);
    let a = "  "@ + padded(p.name@, 14);
    let b = a + " files="@ + files;
    let c = b + " bytes="@ + bytes;
    assert(occurs(p.name@, line)) by {
        let rest = " files="@ + files + " bytes="@ + bytes + " "@ + p.path@;
        assert(line =~= "  "@ + padded(p.name@, 14) + rest);
        lemma_shown_in_column("  "@, p.name@, 14, rest);
    }
    assert(occurs(" files="@ + dec(p.files as nat), line)) by {
        let n = dec(p.files as nat);
        let told = " files="@ + n;
        let rest = " bytes="@ + bytes + " "@ + p.path@;
        law_columns_cut_nothing(n, 6);
        assert(files.subrange(0, n.len() as int) =~= n);
        assert(b.subrange(a.len() as int, (a.len() + told.len()) as int) =~= told);
        assert(occurs_at(told, b, a.len() as int));
        lemma_occurs_between(Seq::empty(), b, rest);
        assert(Seq::<char>::empty() + b + rest =~= line);
        lemma_occurs_within(told, b, line);
    }
    assert(occurs(" bytes="@ + dec(p.bytes as nat), line)) by {
        let n = dec(p.bytes as nat);
        let told = " bytes="@ + n;
        let rest = " "@ + p.path@;
        law_columns_cut_nothing(n, 10);
        assert(bytes.subrange(0, n.len() as int) =~= n);
        assert(c.subrange(b.len() as int, (b.len() + told.len()) as int) =~= told);
        assert(occurs_at(told, c, b.len() as int));
        lemma_occurs_between(Seq::empty(), c, rest);
        assert(Seq::<char>::empty() + c + rest =~= line);
        lemma_occurs_within(told, c, line);
    }
    assert(line.subrange(line.len() - p.path@.len(), line.len() as int) =~= p.path@);
}

/// Every channel, every part and every directory has its line, and so have the
/// process and what runs in it.
pub proof fn law_everything_is_shown(s: ResourceSnapshot)
    ensures
        ({
            let shown = snapshot_lines(s);
            &&& shown.len() == 16 + 2 * s.channels@.len() + s.memory@.len() + s.paths@.len()
            &&& shown[1] == "  pid: "@ + dec(s.pid as nat)
            &&& s.rss_bytes matches Some(n) ==> shown[2] == "  rss: "@ + dec(n as nat)
            &&& s.virtual_bytes matches Some(n) ==> shown[3] == "  virtual: "@ + dec(n as nat)
            &&& shown[6] == "  sessions: "@ + dec(s.session_count as nat)
            &&& shown[8] == "  active_turns: "@ + dec(s.active_turn_count as nat)
            &&& forall|i: int|
                0 <= i < s.channels@.len() ==> #[trigger] shown[12 + 2 * i] == "  "@
                    + s.channels@[i].name@ + " ("@ + s.channels@[i].platform@ + ")"@
            &&& forall|i: int|
                0 <= i < s.paths@.len() ==> #[trigger] shown[shown.len() - s.paths@.len() + i]
                    == path_line(s.paths@[i])
        }),
{
    let list = s.channels@;
    lemma_channel_lines(list);
    law_largest_parts_come_first(usages(s.memory@));
    let order = sorted(usages(s.memory@), usage_order());
    usages(s.memory@).to_multiset_ensures();
    order.to_multiset_ensures();
    assert(order.len() == s.memory@.len());
    let shown = snapshot_lines(s);
    assert forall|i: int| 0 <= i < list.len() implies #[trigger] shown[12 + 2 * i] == "  "@
        + list[i].name@ + " ("@ + list[i].platform@ + ")"@ by {
        assert(shown[12 + 2 * i] == all_channel_lines(list)[2 * i]);
    }
}

proof fn lemma_channel_lines(list: Seq<ChannelResource>)
    ensures
        all_channel_lines(list).len() == 2 * list.len(),
        forall|i: int|
            0 <= i < list.len() ==> #[trigger] all_channel_lines(list)[2 * i] == "  "@
                + list[i].name@ + " ("@ + list[i].platform@ + ")"@,
    decreases list.len(),
{
    if list.len() > 0 {
        let front = list.drop_last();
        lemma_channel_lines(front);
        let all = all_channel_lines(list);
        assert forall|i: int| 0 <= i < list.len() implies #[trigger] all[2 * i] == "  "@
            + list[i].name@ + " ("@ + list[i].platform@ + ")"@ by {
            if i < front.len() {
                assert(all[2 * i] == all_channel_lines(front)[2 * i]);
                assert(front[i] == list[i]);
            }
        }
    }
}

} // verus!
