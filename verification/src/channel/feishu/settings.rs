//! How the Feishu channel is set up and where it keeps files.

use crate::channel::feishu::event::FeishuFileResource;
use crate::config::FeishuChannelConfig;
use crate::error::{AppError, AppResult, ErrorView};
use crate::home::{join_path, joined};
use crate::message::InboundAttachment;
use crate::text::{
    blank, chars_of, control, is_blank, is_control, is_white, lemma_trimmed, lines, lines_of,
    opt_str, opt_text, same_text, string_of, strip_end, strip_start, stripped, trim, trim_end,
    trim_start, trimmed, trimmed_text,
};
use vstd::prelude::*;

verus! {

/// The credentials and the address of a Feishu application.
pub struct ResolvedFeishuConfig {
    /// The address.
    pub base_url: String,
    /// The application's id.
    pub app_id: String,
    /// The application's secret.
    pub app_secret: String,
}

/// A secret: the configured one without surrounding white space, else that of
/// the environment, unless it is blank.
pub open spec fn secret(value: Option<Seq<char>>, env_value: Option<Seq<char>>) -> Option<Seq<char>> {
    if value is Some && !is_blank(value->0) {
        Some(trim(value->0))
    } else if env_value is Some && !is_blank(env_value->0) {
        env_value
    } else {
        None
    }
}

/// Finds a secret, given the value of its environment variable.
pub fn resolve_secret(value: &Option<String>, env_value: Option<&str>) -> (r: Option<String>)
    ensures
        opt_text(r) == secret(opt_text(*value), opt_str(env_value)),
{
    if let Some(s) = value {
        if !blank(s.as_str()) {
            return Some(trimmed_text(s.as_str()));
        }
    }
    match env_value {
        Some(s) => if blank(s) {
            None
        } else {
            Some(String::from_str(s))
        },
        None => None,
    }
}

/// The address that a domain stands for.
pub open spec fn domain_url(domain: Seq<char>) -> Option<Seq<char>> {
    if domain == "lark"@ {
        Some("https://open.larksuite.com"@)
    } else if domain == "feishu"@ || domain == ""@ {
        Some("https://open.feishu.cn"@)
    } else {
        None
    }
}

impl ResolvedFeishuConfig {
    /// Finds the credentials and the address, given the values of the
    /// configured environment variables.
    pub fn resolve(
        config: &FeishuChannelConfig,
        env_app_id: Option<&str>,
        env_app_secret: Option<&str>,
    ) -> (r: AppResult<Self>)
        ensures
            ({
                let id = secret(opt_text(config.app_id), opt_str(env_app_id));
                let key = secret(opt_text(config.app_secret), opt_str(env_app_secret));
                let url = domain_url(config.domain@);
                match r {
                    Ok(found) => {
                        &&& id == Some(found.app_id@)
                        &&& key == Some(found.app_secret@)
                        &&& url == Some(found.base_url@)
                    },
                    Err(e) => e@ == ErrorView::Channel(
                        if id is None {
                            "feishu app_id is required"@
                        } else if key is None {
                            "feishu app_secret is required"@
                        } else {
                            "unsupported feishu domain: "@ + config.domain@
                        },
                    ) && (id is None || key is None || url is None),
                }
            }),
    {
        let app_id = match resolve_secret(&config.app_id, env_app_id) {
            Some(s) => s,
            None => return Err(AppError::channel("feishu app_id is required")),
        };
        let app_secret = match resolve_secret(&config.app_secret, env_app_secret) {
            Some(s) => s,
            None => return Err(AppError::channel("feishu app_secret is required")),
        };
        let domain = config.domain.as_str();
        let base_url = if same_text(domain, "lark") {
            String::from_str("https://open.larksuite.com")
        } else if same_text(domain, "feishu") || same_text(domain, "") {
            String::from_str("https://open.feishu.cn")
        } else {
            let mut text = String::from_str("unsupported feishu domain: ");
            text.append(domain);
            return Err(AppError::Channel(text));
        };
        Ok(ResolvedFeishuConfig { base_url, app_id, app_secret })
    }
}

/// Seconds between pings: at least one.
pub fn ping_seconds(configured: u64) -> (r: u64)
    ensures
        r == if configured < 1 {
            1
        } else {
            configured
        },
{
    if configured < 1 {
        1
    } else {
        configured
    }
}

/// Seconds before the second attempt to connect.
pub const FIRST_RETRY_SECONDS: u64 = 3;

/// Seconds before the next attempt to connect: twice as long as before, a
/// minute at most.
pub open spec fn doubled_delay(seconds: u64) -> u64 {
    if seconds > 30 {
        60
    } else {
        (seconds * 2) as u64
    }
}

/// Seconds before the next attempt to connect.
pub fn next_retry_delay(seconds: u64) -> (r: u64)
    ensures
        r == doubled_delay(seconds),
{
    if seconds > 30 {
        60
    } else {
        seconds * 2
    }
}

/// Whether a character may not stand in the name of a stored file.
pub open spec fn breaks_path(c: char) -> bool {
    c == '/' || c == '\\' || c == ':' || is_control(c)
}

/// `s` with an underscore in place of each character that may not stand in the
/// name of a stored file.
pub open spec fn path_cleaned(s: Seq<char>) -> Seq<char> {
    Seq::new(
        s.len(),
        |i: int|
            if breaks_path(s[i]) {
                '_'
            } else {
                s[i]
            },
    )
}

/// The name under which a file of the platform is stored.
pub open spec fn stored_name(s: Seq<char>) -> Seq<char> {
    let body = strip_end(strip_start(trim(path_cleaned(s)), '.'), '.');
    if body.len() == 0 {
        "file"@
    } else {
        body
    }
}

/// Makes a name under which a file of the platform can be stored.
pub fn feishu_sanitize_filename(filename: &str) -> (r: String)
    ensures
        r@ == stored_name(filename@),
{
    let cs = chars_of(filename);
    let mut out: Vec<char> = Vec::new();
    let mut i: usize = 0;
    while i < cs.len()
        invariant
            i <= cs@.len(),
            cs@ == filename@,
            out@ =~= path_cleaned(filename@).take(i as int),
        decreases cs@.len() - i,
    {
        let c = cs[i];
        if c == '/' || c == '\\' || c == ':' || control(c) {
            out.push('_');
        } else {
            out.push(c);
        }
        i += 1;
    }
    assert(out@ =~= path_cleaned(filename@));
    let body = stripped(trimmed(&out), '.');
    if body.len() == 0 {
        String::from_str("file")
    } else {
        string_of(body)
    }
}

/// Where the bot's open id is kept.
pub fn bot_open_id_cache_path(channel_data_dir: &str, channel_name: &str) -> (r: String)
    ensures
        r@ == joined(
            joined(joined(channel_data_dir@, "feishu"@), stored_name(channel_name@)),
            "bot_open_id"@,
        ),
{
    let dir = join_path(channel_data_dir, "feishu");
    let own = join_path(dir.as_str(), feishu_sanitize_filename(channel_name).as_str());
    join_path(own.as_str(), "bot_open_id")
}

/// The open id that a cache file holds: its first line, unless it is blank.
pub open spec fn cached_id(content: Seq<char>) -> Option<Seq<char>> {
    let ls = lines(content);
    if ls.len() > 0 && trim(ls[0]).len() > 0 {
        Some(trim(ls[0]))
    } else {
        None
    }
}

/// Reads the open id from what a cache file holds.
pub fn cached_bot_open_id(content: &str) -> (r: Option<String>)
    ensures
        opt_text(r) == cached_id(content@),
{
    let cs = chars_of(content);
    let ls = lines_of(&cs);
    assert(crate::text::views(ls@).len() == ls@.len());
    if ls.len() == 0 {
        return None;
    }
    let first = trimmed(&ls[0]);
    if first.len() == 0 {
        None
    } else {
        Some(string_of(first))
    }
}

/// The name of a file: the given one, else its key.
pub open spec fn shown_name(key: Seq<char>, filename: Option<Seq<char>>) -> Seq<char> {
    match filename {
        Some(name) => name,
        None => key,
    }
}

/// The path of a file in the directory of its session, given a hash of its
/// key.
pub open spec fn file_path(
    session_dir: Seq<char>,
    key_hash: Seq<char>,
    name: Seq<char>,
) -> Seq<char> {
    joined(session_dir, key_hash + "_"@ + stored_name(name))
}

/// Where a file of a message is stored, and how it is told about afterwards.
pub fn plan_stored_file(
    session_dir: &str,
    key_hash: &str,
    resource: &FeishuFileResource,
    mime_type: &str,
    size: u64,
) -> (r: InboundAttachment)
    ensures
        is_stored_as(r, session_dir@, key_hash@, *resource, mime_type@, size),
{
    let filename = match &resource.filename {
        Some(name) => name.clone(),
        None => resource.file_key.clone(),
    };
    let mut name = String::from_str(key_hash);
    name.append("_");
    name.append(feishu_sanitize_filename(filename.as_str()).as_str());
    InboundAttachment::StoredFile {
        path: join_path(session_dir, name.as_str()),
        filename,
        mime_type: String::from_str(mime_type),
        size,
    }
}

/// Whether an attachment tells about the given file of a message.
pub open spec fn is_stored_as(
    attachment: InboundAttachment,
    session_dir: Seq<char>,
    key_hash: Seq<char>,
    resource: FeishuFileResource,
    mime: Seq<char>,
    bytes: u64,
) -> bool {
    match attachment {
        InboundAttachment::StoredFile { path, filename, mime_type, size } => {
            let name = shown_name(resource.file_key@, opt_text(resource.filename));
            &&& path@ == file_path(session_dir, key_hash, name)
            &&& filename@ == name
            &&& mime_type@ == mime
            &&& size == bytes
        },
        InboundAttachment::Image { .. } => false,
    }
}

/// What came of fetching and storing a file.
pub enum StoreOutcome {
    /// The file is stored.
    Stored {
        /// The MIME type.
        mime_type: String,
        /// The size in bytes.
        size: u64,
    },
    /// The file could not be fetched or written.
    Failed,
}

/// The positions of the files that were stored.
pub open spec fn stored_positions(outcomes: Seq<StoreOutcome>) -> Seq<int>
    decreases outcomes.len(),
{
    if outcomes.len() == 0 {
        Seq::empty()
    } else {
        let before = stored_positions(outcomes.drop_last());
        if outcomes.last() is Stored {
            before.push(outcomes.len() - 1)
        } else {
            before
        }
    }
}

/// Whether an attachment tells about the file at position `p`.
pub open spec fn tells_of(
    attachment: InboundAttachment,
    session_dir: Seq<char>,
    key_hashes: Seq<String>,
    resources: Seq<FeishuFileResource>,
    outcomes: Seq<StoreOutcome>,
    p: int,
) -> bool {
    match outcomes[p] {
        StoreOutcome::Stored { mime_type, size } => is_stored_as(
            attachment,
            session_dir,
            key_hashes[p]@,
            resources[p],
            mime_type@,
            size,
        ),
        StoreOutcome::Failed => false,
    }
}

/// Whether `list` tells about the stored files of a message, in their order.
pub open spec fn tells_stored(
    list: Seq<InboundAttachment>,
    session_dir: Seq<char>,
    key_hashes: Seq<String>,
    resources: Seq<FeishuFileResource>,
    outcomes: Seq<StoreOutcome>,
) -> bool {
    let at = stored_positions(outcomes);
    &&& list.len() == at.len()
    &&& forall|k: int|
        0 <= k < list.len() ==> tells_of(
            #[trigger] list[k],
            session_dir,
            key_hashes,
            resources,
            outcomes,
            at[k],
        )
}

/// The attachments of a message, given what came of each of its files: those
/// that could not be stored are left out.
pub fn stored_attachments(
    session_dir: &str,
    key_hashes: &Vec<String>,
    resources: &Vec<FeishuFileResource>,
    outcomes: &Vec<StoreOutcome>,
) -> (r: Vec<InboundAttachment>)
    requires
        key_hashes@.len() == resources@.len(),
        outcomes@.len() == resources@.len(),
    ensures
        tells_stored(r@, session_dir@, key_hashes@, resources@, outcomes@),
{
    let mut out: Vec<InboundAttachment> = Vec::new();
    let mut i: usize = 0;
    assert(outcomes@.take(0) =~= Seq::<StoreOutcome>::empty());
    let ghost mut at: Seq<int> = Seq::empty();
    while i < outcomes.len()
        invariant
            i <= outcomes@.len(),
            key_hashes@.len() == resources@.len(),
            outcomes@.len() == resources@.len(),
            at == stored_positions(outcomes@.take(i as int)),
            out@.len() == at.len(),
            forall|k: int|
                0 <= k < out@.len() ==> tells_of(
                    #[trigger] out@[k],
                    session_dir@,
                    key_hashes@,
                    resources@,
                    outcomes@,
                    at[k],
                ),
        decreases outcomes@.len() - i,
    {
        assert(outcomes@.take(i + 1).drop_last() =~= outcomes@.take(i as int));
        assert(outcomes@.take(i + 1).last() == outcomes@[i as int]);
        if let StoreOutcome::Stored { mime_type, size } = &outcomes[i] {
            out.push(
                plan_stored_file(
                    session_dir,
                    key_hashes[i].as_str(),
                    &resources[i],
                    mime_type.as_str(),
                    *size,
                ),
            );
            proof {
                at = at.push(i as int);
            }
        }
        i += 1;
    }
    assert(outcomes@.take(outcomes@.len() as int) =~= outcomes@);
    out
}

/// The waiting time before a new connection grows but never exceeds a minute.
pub proof fn law_retry_delay_is_bounded(seconds: u64)
    requires
        seconds <= 60,
    ensures
        doubled_delay(seconds) <= 60,
        doubled_delay(seconds) >= seconds,
{
}

/// A configured secret goes before that of the environment, which counts where
/// the configured one is missing or blank.
pub proof fn law_configured_secrets_win(
    value: Option<Seq<char>>,
    env_value: Option<Seq<char>>,
    own: Seq<char>,
    before: Seq<char>,
    after: Seq<char>,
)
    requires
        own.len() > 0,
        !is_white(own[0]),
        !is_white(own.last()),
        forall|i: int| 0 <= i < before.len() ==> is_white(#[trigger] before[i]),
        forall|i: int| 0 <= i < after.len() ==> is_white(#[trigger] after[i]),
    ensures
        value == Some(before + own + after) ==> secret(value, env_value) == Some(own),
        (value is None || is_blank(value->0)) && env_value == Some(own) ==> secret(
            value,
            env_value,
        ) == Some(own),
        (value is None || is_blank(value->0)) && (env_value is None || is_blank(env_value->0))
            ==> secret(value, env_value) is None,
{
    lemma_trimmed(before, own, after);
    lemma_trimmed(Seq::empty(), own, Seq::empty());
    assert(Seq::<char>::empty() + own + Seq::<char>::empty() =~= own);
}

/// The two domains have their own addresses, and no domain stands for the
/// first of them; other domains are not known.
pub proof fn law_domains_have_their_address(domain: Seq<char>)
    ensures
        domain_url("feishu"@) == Some("https://open.feishu.cn"@),
        domain_url("lark"@) == Some("https://open.larksuite.com"@),
        domain.len() == 0 ==> domain_url(domain) == domain_url("feishu"@),
        domain_url(domain) is Some ==> domain.len() == 0 || domain == "feishu"@ || domain
            == "lark"@,
{
    reveal_strlit("feishu");
    reveal_strlit("lark");
    reveal_strlit("");
    assert("feishu"@.len() == 6 && "lark"@.len() == 4);
    if domain.len() == 0 {
        assert(domain =~= ""@);
    }
}

/// The waiting time before a new connection doubles until it is a minute.
pub proof fn law_retry_delay_doubles(seconds: u64)
    ensures
        seconds <= 30 ==> doubled_delay(seconds) == 2 * seconds,
        seconds > 30 ==> doubled_delay(seconds) == 60,
        FIRST_RETRY_SECONDS == 3,
{
}

proof fn lemma_strip_keeps(s: Seq<char>, p: spec_fn(char) -> bool)
    requires
        forall|i: int| 0 <= i < s.len() ==> p(#[trigger] s[i]),
    ensures
        forall|i: int| 0 <= i < trim_start(s).len() ==> p(#[trigger] trim_start(s)[i]),
        forall|i: int| 0 <= i < strip_start(s, '.').len() ==> p(#[trigger] strip_start(s, '.')[i]),
        strip_start(s, '.').len() > 0 ==> strip_start(s, '.')[0] != '.',
    decreases s.len(),
{
    if s.len() > 0 {
        let rest = s.skip(1);
        assert forall|i: int| 0 <= i < rest.len() implies p(#[trigger] rest[i]) by {
            assert(rest[i] == s[i + 1]);
        }
        lemma_strip_keeps(rest, p);
        assert(trim_start(s) == if is_white(s[0]) {
            trim_start(rest)
        } else {
            s
        });
    }
}

proof fn lemma_strip_end_keeps(s: Seq<char>, p: spec_fn(char) -> bool)
    requires
        forall|i: int| 0 <= i < s.len() ==> p(#[trigger] s[i]),
    ensures
        forall|i: int| 0 <= i < trim_end(s).len() ==> p(#[trigger] trim_end(s)[i]),
        forall|i: int| 0 <= i < strip_end(s, '.').len() ==> p(#[trigger] strip_end(s, '.')[i]),
        strip_end(s, '.').len() > 0 ==> strip_end(s, '.')[0] == s[0] && strip_end(s, '.').last()
            != '.',
    decreases s.len(),
{
    if s.len() > 0 {
        let front = s.drop_last();
        assert forall|i: int| 0 <= i < front.len() implies p(#[trigger] front[i]) by {
            assert(front[i] == s[i]);
        }
        lemma_strip_end_keeps(front, p);
        assert(trim_end(s) == if is_white(s.last()) {
            trim_end(front)
        } else {
            s
        });
    }
}

/// The name of a stored file is never empty, holds no character that leads
/// elsewhere, and neither starts nor ends with a dot.
pub proof fn law_stored_names_stay_inside(s: Seq<char>)
    ensures
        stored_name(s).len() > 0,
        forall|i: int|
            0 <= i < stored_name(s).len() ==> stored_name(s)[i] != '/' && stored_name(s)[i] != '\\'
                && stored_name(s)[i] != ':' && !is_control(#[trigger] stored_name(s)[i]),
        stored_name(s)[0] != '.',
        stored_name(s).last() != '.',
{
    reveal_strlit("file");
    let p = |c: char| !breaks_path(c);
    let clean = path_cleaned(s);
    lemma_strip_keeps(clean, p);
    lemma_strip_end_keeps(trim_start(clean), p);
    let body = trim(clean);
    lemma_strip_keeps(body, p);
    let front = strip_start(body, '.');
    lemma_strip_end_keeps(front, p);
    let r = stored_name(s);
    assert forall|i: int| 0 <= i < r.len() implies r[i] != '/' && r[i] != '\\' && r[i] != ':'
        && !is_control(#[trigger] r[i]) by {
        assert("file"@[0] == 'f' && "file"@[1] == 'i' && "file"@[2] == 'l' && "file"@[3] == 'e');
        if strip_end(front, '.').len() > 0 {
            assert(p(strip_end(front, '.')[i]));
        }
    }
}

/// A name that can stand on disk as it is stays.
pub proof fn law_plain_names_stay(s: Seq<char>)
    requires
        s.len() > 0,
        forall|i: int|
            0 <= i < s.len() ==> !is_control(#[trigger] s[i]) && s[i] != '/' && s[i] != '\\' && s[i]
                != ':',
        !is_white(s[0]) && s[0] != '.',
        !is_white(s.last()) && s.last() != '.',
    ensures
        stored_name(s) == s,
{
    assert(path_cleaned(s) =~= s);
    lemma_trimmed(Seq::empty(), s, Seq::empty());
    assert(Seq::<char>::empty() + s + Seq::<char>::empty() =~= s);
}

/// A cache file holds the id in its first line.
pub proof fn law_the_first_line_is_the_id(content: Seq<char>, id: Seq<char>)
    requires
        id.len() > 0,
        !is_white(id[0]),
        !is_white(id.last()),
        lines(content).len() > 0,
    ensures
        lines(content)[0] == id ==> cached_id(content) == Some(id),
        cached_id(Seq::empty()) is None,
{
    lemma_trimmed(Seq::empty(), id, Seq::empty());
    assert(Seq::<char>::empty() + id + Seq::<char>::empty() =~= id);
    assert(lines(Seq::<char>::empty()).len() == 0);
}

/// Every file that was stored is told about, in order, and no other.
pub proof fn law_only_stored_files_are_told(outcomes: Seq<StoreOutcome>)
    ensures
        forall|i: int|
            0 <= i < outcomes.len() ==> (stored_positions(outcomes).contains(i) <==> (
            #[trigger] outcomes[i]) is Stored),
        forall|k: int|
            0 <= k < stored_positions(outcomes).len() ==> 0 <= #[trigger] stored_positions(
                outcomes,
            )[k] < outcomes.len(),
        forall|j: int, k: int|
            0 <= j < k < stored_positions(outcomes).len() ==> #[trigger] stored_positions(
                outcomes,
            )[j] < #[trigger] stored_positions(outcomes)[k],
    decreases outcomes.len(),
{
    if outcomes.len() > 0 {
        let front = outcomes.drop_last();
        law_only_stored_files_are_told(front);
        let before = stored_positions(front);
        let at = stored_positions(outcomes);
        assert forall|i: int| 0 <= i < outcomes.len() implies (at.contains(i) <==> (
        #[trigger] outcomes[i]) is Stored) by {
            if i < front.len() {
                assert(front[i] == outcomes[i]);
                if before.contains(i) {
                    let k = choose|k: int| 0 <= k < before.len() && before[k] == i;
                    assert(at[k] == i);
                }
                if at.contains(i) {
                    let k = choose|k: int| 0 <= k < at.len() && at[k] == i;
                    assert(k < before.len());
                    assert(before[k] == i);
                }
            } else if outcomes[i] is Stored {
                assert(at[at.len() - 1] == i);
            } else if at.contains(i) {
                let k = choose|k: int| 0 <= k < at.len() && at[k] == i;
                assert(before[k] == i);
            }
        }
    }
}

/// A file is told about by the name that it was given, else by its key.
pub proof fn law_given_names_are_shown(key: Seq<char>, name: Seq<char>)
    ensures
        shown_name(key, Some(name)) == name,
        shown_name(key, None) == key,
{
}

} // verus!
