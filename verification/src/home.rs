//! Where the application keeps its files.

use crate::text::{chars_of, has_prefix, is_white, lemma_trimmed, string_of, trim, trimmed};
use vstd::prelude::*;
use vstd::slice::slice_subrange;

verus! {

/// The path that `rest` names when it is taken relative to `base`: an absolute
/// path stands for itself.
pub open spec fn joined(base: Seq<char>, rest: Seq<char>) -> Seq<char> {
    if rest.len() > 0 && rest[0] == '/' {
        rest
    } else if base.len() == 0 || base.last() == '/' {
        base + rest
    } else {
        base + "/"@ + rest
    }
}

/// The path that `rest` names when it is taken relative to `base`.
pub fn join_path(base: &str, rest: &str) -> (r: String)
    ensures
        r@ == joined(base@, rest@),
{
    let b = chars_of(base);
    let s = chars_of(rest);
    if s.len() > 0 && s[0] == '/' {
        return String::from_str(rest);
    }
    let mut out = String::from_str(base);
    if b.len() > 0 && b[b.len() - 1] != '/' {
        out.append("/");
    }
    out.append(rest);
    out
}

/// The paths of the application's files.
#[derive(Debug, Clone, PartialEq, Eq)]
pub struct AppPaths {
    /// The user's home directory.
    pub home_dir: String,
    /// The directory that the daemon works in.
    pub work_dir: String,
    /// The application's own directory.
    pub app_dir: String,
    /// What channels keep.
    pub channel_data_dir: String,
    /// Attachments that channels received.
    pub channel_store_dir: String,
    /// Skills.
    pub skills_dir: String,
    /// Memories.
    pub mems_dir: String,
    /// Session histories.
    pub sessions_dir: String,
    /// Scheduled tasks.
    pub crons_dir: String,
    /// Plan messages.
    pub plans_dir: String,
    /// The directory of the Codex command line.
    pub codex_home: String,
    /// The configuration.
    pub config_path: String,
    /// The configuration of the Codex command line.
    pub codex_config_path: String,
    /// Credentials.
    pub auth_path: String,
    /// The installation's id.
    pub installation_id_path: String,
    /// The socket on which the daemon answers.
    pub daemon_socket_path: String,
}

impl AppPaths {
    /// Whether these are the paths for the given home directory, apart from
    /// the directory that the daemon works in.
    pub open spec fn is_under(self, home: Seq<char>) -> bool {
        let app = joined(home, ".llm-loop"@);
        let codex = joined(home, ".codex"@);
        &&& self.home_dir@ == home
        &&& self.app_dir@ == app
        &&& self.codex_home@ == codex
        &&& self.config_path@ == joined(app, "config.toml"@)
        &&& self.codex_config_path@ == joined(codex, "config.toml"@)
        &&& self.auth_path@ == joined(app, "auth.json"@)
        &&& self.installation_id_path@ == joined(app, "installation_id"@)
        &&& self.daemon_socket_path@ == joined(app, "llm-loop.sock"@)
        &&& self.channel_data_dir@ == joined(app, "channel"@)
        &&& self.channel_store_dir@ == joined(joined(app, "channel"@), "store"@)
        &&& self.skills_dir@ == joined(app, "skills"@)
        &&& self.mems_dir@ == joined(app, "mems"@)
        &&& self.sessions_dir@ == joined(app, "sessions"@)
        &&& self.crons_dir@ == joined(app, "crons"@)
        &&& self.plans_dir@ == joined(app, "plans"@)
    }

    /// The paths for a home directory.
    pub fn from_home(home_dir: &str) -> (r: Self)
        ensures
            r.is_under(home_dir@),
            r.work_dir@ == home_dir@,
    {
        let app_dir = join_path(home_dir, ".llm-loop");
        let codex_home = join_path(home_dir, ".codex");
        let channel_data_dir = join_path(app_dir.as_str(), "channel");
        AppPaths {
            home_dir: String::from_str(home_dir),
            work_dir: String::from_str(home_dir),
            channel_store_dir: join_path(channel_data_dir.as_str(), "store"),
            channel_data_dir,
            skills_dir: join_path(app_dir.as_str(), "skills"),
            mems_dir: join_path(app_dir.as_str(), "mems"),
            sessions_dir: join_path(app_dir.as_str(), "sessions"),
            crons_dir: join_path(app_dir.as_str(), "crons"),
            plans_dir: join_path(app_dir.as_str(), "plans"),
            config_path: join_path(app_dir.as_str(), "config.toml"),
            codex_config_path: join_path(codex_home.as_str(), "config.toml"),
            auth_path: join_path(app_dir.as_str(), "auth.json"),
            installation_id_path: join_path(app_dir.as_str(), "installation_id"),
            daemon_socket_path: join_path(app_dir.as_str(), "llm-loop.sock"),
            app_dir,
            codex_home,
        }
    }

    /// The paths with the configured directory to work in, given the `HOME` of
    /// the environment.
    pub fn with_work_dir(self, work_dir: Option<&str>, env_home: Option<&str>) -> (r: Self)
        ensures
            r == (AppPaths { work_dir: r.work_dir, ..self }),
            r.work_dir@ == match work_dir {
                Some(value) => match configured_dir(value@, crate::text::opt_str(env_home)) {
                    Some(dir) => dir,
                    None => self.work_dir@,
                },
                None => self.work_dir@,
            },
    {
        let mut r = self;
        if let Some(value) = work_dir {
            if let Some(dir) = resolve_configured_work_dir(value, env_home) {
                r.work_dir = dir;
            }
        }
        r
    }
}

/// The directory that a configured value names: `~` stands for the home
/// directory of the environment, and a blank value for none.
pub open spec fn configured_dir(value: Seq<char>, env_home: Option<Seq<char>>) -> Option<Seq<char>> {
    let dir = trim(value);
    if dir.len() == 0 {
        None
    } else if dir == "~"@ {
        env_home
    } else if "~/"@.is_prefix_of(dir) {
        match env_home {
            Some(home) => Some(joined(home, dir.skip(2))),
            None => None,
        }
    } else {
        Some(dir)
    }
}

/// The directory that a configured value names.
pub fn resolve_configured_work_dir(value: &str, env_home: Option<&str>) -> (r: Option<String>)
    ensures
        crate::text::opt_text(r) == configured_dir(value@, crate::text::opt_str(env_home)),
{
    let cs = chars_of(value);
    let dir = trimmed(&cs);
    if dir.len() == 0 {
        return None;
    }
    let home_mark = chars_of("~");
    if crate::text::same_chars(dir, &home_mark) {
        return match env_home {
            Some(home) => Some(String::from_str(home)),
            None => None,
        };
    }
    let below_home = chars_of("~/");
    proof {
        reveal_strlit("~/");
    }
    if has_prefix(dir, &below_home) {
        let rest = slice_subrange(dir, 2, dir.len());
        assert(rest@ =~= dir@.skip(2));
        return match env_home {
            Some(home) => Some(join_path(home, string_of(rest).as_str())),
            None => None,
        };
    }
    Some(string_of(dir))
}

/// All of the application's files stand below the home directory.
pub proof fn law_files_stay_below_home(paths: AppPaths, home: Seq<char>)
    requires
        paths.is_under(home),
    ensures
        home.is_prefix_of(paths.app_dir@),
        home.is_prefix_of(paths.codex_home@),
        paths.app_dir@.is_prefix_of(paths.config_path@),
        paths.app_dir@.is_prefix_of(paths.channel_store_dir@),
        paths.app_dir@.is_prefix_of(paths.sessions_dir@),
        paths.app_dir@.is_prefix_of(paths.mems_dir@),
        paths.app_dir@.is_prefix_of(paths.skills_dir@),
        paths.app_dir@.is_prefix_of(paths.crons_dir@),
        paths.app_dir@.is_prefix_of(paths.plans_dir@),
{
    reveal_strlit(".llm-loop");
    reveal_strlit(".codex");
    reveal_strlit("config.toml");
    reveal_strlit("channel");
    reveal_strlit("store");
    reveal_strlit("skills");
    reveal_strlit("mems");
    reveal_strlit("sessions");
    reveal_strlit("crons");
    reveal_strlit("plans");
    let app = paths.app_dir@;
    lemma_joined_below(home, ".llm-loop"@);
    lemma_joined_below(home, ".codex"@);
    lemma_joined_below(app, "config.toml"@);
    lemma_joined_below(app, "channel"@);
    lemma_joined_below(joined(app, "channel"@), "store"@);
    lemma_joined_below(app, "sessions"@);
    lemma_joined_below(app, "mems"@);
    lemma_joined_below(app, "skills"@);
    lemma_joined_below(app, "crons"@);
    lemma_joined_below(app, "plans"@);
    let data = joined(app, "channel"@);
    let store = joined(data, "store"@);
    assert(store.subrange(0, app.len() as int) =~= data.subrange(0, app.len() as int));
}

proof fn lemma_joined_below(base: Seq<char>, rest: Seq<char>)
    requires
        rest.len() > 0,
        rest[0] != '/',
    ensures
        base.is_prefix_of(joined(base, rest)),
{
    assert(joined(base, rest).subrange(0, base.len() as int) =~= base);
}

/// A path that starts at the root stays, and another one is put below the
/// directory, behind one slash.
pub proof fn law_relative_paths_go_below(base: Seq<char>, rest: Seq<char>)
    requires
        base.len() > 0,
        base.last() != '/',
        rest.len() > 0,
        rest[0] != '/',
    ensures
        joined(base, rest) == base + seq!['/'] + rest,
        joined(base.push('/'), rest) == joined(base, rest),
        joined(base, seq!['/'] + rest) == seq!['/'] + rest,
{
    reveal_strlit("/");
    assert("/"@ =~= seq!['/']);
    assert(base.push('/') + rest =~= base + seq!['/'] + rest);
}

/// The files of the application stand in its directory below the home, each
/// under its own name.
pub proof fn law_files_have_their_places(paths: AppPaths, home: Seq<char>)
    requires
        paths.is_under(home),
        home.len() > 0,
        home.last() != '/',
    ensures
        paths.home_dir@ == home,
        paths.app_dir@ == home + "/.llm-loop"@,
        paths.codex_home@ == home + "/.codex"@,
        paths.config_path@ == home + "/.llm-loop/config.toml"@,
        paths.codex_config_path@ == home + "/.codex/config.toml"@,
        paths.auth_path@ == home + "/.llm-loop/auth.json"@,
        paths.installation_id_path@ == home + "/.llm-loop/installation_id"@,
        paths.daemon_socket_path@ == home + "/.llm-loop/llm-loop.sock"@,
        paths.channel_data_dir@ == home + "/.llm-loop/channel"@,
        paths.channel_store_dir@ == home + "/.llm-loop/channel/store"@,
        paths.skills_dir@ == home + "/.llm-loop/skills"@,
        paths.mems_dir@ == home + "/.llm-loop/mems"@,
        paths.sessions_dir@ == home + "/.llm-loop/sessions"@,
        paths.crons_dir@ == home + "/.llm-loop/crons"@,
        paths.plans_dir@ == home + "/.llm-loop/plans"@,
{
    reveal_strlit(".llm-loop");
    reveal_strlit(".codex");
    reveal_strlit("/.llm-loop");
    reveal_strlit("/.codex");
    let app = joined(home, ".llm-loop"@);
    let codex = joined(home, ".codex"@);
    law_relative_paths_go_below(home, ".llm-loop"@);
    law_relative_paths_go_below(home, ".codex"@);
    assert(app =~= home + "/.llm-loop"@);
    assert(codex =~= home + "/.codex"@);
    assert(app.last() == 'p' && codex.last() == 'x');
    assert(paths.config_path@ == home + "/.llm-loop/config.toml"@ && paths.codex_config_path@
        == home + "/.codex/config.toml"@ && paths.auth_path@ == home + "/.llm-loop/auth.json"@) by {
        reveal_strlit("config.toml");
        reveal_strlit("auth.json");
        reveal_strlit("/.llm-loop/config.toml");
        reveal_strlit("/.codex/config.toml");
        reveal_strlit("/.llm-loop/auth.json");
        law_relative_paths_go_below(app, "config.toml"@);
        law_relative_paths_go_below(codex, "config.toml"@);
        law_relative_paths_go_below(app, "auth.json"@);
        assert(paths.config_path@ =~= home + "/.llm-loop/config.toml"@);
        assert(paths.codex_config_path@ =~= home + "/.codex/config.toml"@);
        assert(paths.auth_path@ =~= home + "/.llm-loop/auth.json"@);
    }
    assert(paths.installation_id_path@ == home + "/.llm-loop/installation_id"@
        && paths.daemon_socket_path@ == home + "/.llm-loop/llm-loop.sock"@) by {
        reveal_strlit("installation_id");
        reveal_strlit("llm-loop.sock");
        reveal_strlit("/.llm-loop/installation_id");
        reveal_strlit("/.llm-loop/llm-loop.sock");
        law_relative_paths_go_below(app, "installation_id"@);
        law_relative_paths_go_below(app, "llm-loop.sock"@);
        assert(paths.installation_id_path@ =~= home + "/.llm-loop/installation_id"@);
        assert(paths.daemon_socket_path@ =~= home + "/.llm-loop/llm-loop.sock"@);
    }
    assert(paths.channel_data_dir@ == home + "/.llm-loop/channel"@ && paths.channel_store_dir@
        == home + "/.llm-loop/channel/store"@) by {
        reveal_strlit("channel");
        reveal_strlit("store");
        reveal_strlit("/.llm-loop/channel");
        reveal_strlit("/.llm-loop/channel/store");
        law_relative_paths_go_below(app, "channel"@);
        let channel = joined(app, "channel"@);
        assert(channel.last() == 'l');
        law_relative_paths_go_below(channel, "store"@);
        assert(paths.channel_data_dir@ =~= home + "/.llm-loop/channel"@);
        assert(paths.channel_store_dir@ =~= home + "/.llm-loop/channel/store"@);
    }
    assert(paths.skills_dir@ == home + "/.llm-loop/skills"@ && paths.mems_dir@ == home
        + "/.llm-loop/mems"@ && paths.sessions_dir@ == home + "/.llm-loop/sessions"@) by {
        reveal_strlit("skills");
        reveal_strlit("mems");
        reveal_strlit("sessions");
        reveal_strlit("/.llm-loop/skills");
        reveal_strlit("/.llm-loop/mems");
        reveal_strlit("/.llm-loop/sessions");
        law_relative_paths_go_below(app, "skills"@);
        law_relative_paths_go_below(app, "mems"@);
        law_relative_paths_go_below(app, "sessions"@);
        assert(paths.skills_dir@ =~= home + "/.llm-loop/skills"@);
        assert(paths.mems_dir@ =~= home + "/.llm-loop/mems"@);
        assert(paths.sessions_dir@ =~= home + "/.llm-loop/sessions"@);
    }
    assert(paths.crons_dir@ == home + "/.llm-loop/crons"@ && paths.plans_dir@ == home
        + "/.llm-loop/plans"@) by {
        reveal_strlit("crons");
        reveal_strlit("plans");
        reveal_strlit("/.llm-loop/crons");
        reveal_strlit("/.llm-loop/plans");
        law_relative_paths_go_below(app, "crons"@);
        law_relative_paths_go_below(app, "plans"@);
        assert(paths.crons_dir@ =~= home + "/.llm-loop/crons"@);
        assert(paths.plans_dir@ =~= home + "/.llm-loop/plans"@);
    }
}

/// A configured directory is used as it is given, without white space around
/// it; a tilde stands for the home, where there is one.
pub proof fn law_tildes_stand_for_the_home(own: Seq<char>, home: Seq<char>)
    requires
        own.len() > 0,
        !is_white(own[0]),
        !is_white(own.last()),
    ensures
        own[0] != '~' ==> configured_dir(own, Some(home)) == Some(own) && configured_dir(own, None)
            == Some(own),
        own == seq!['~'] ==> configured_dir(own, Some(home)) == Some(home) && configured_dir(
            own,
            None,
        ) is None,
        configured_dir(seq!['~', '/'] + own, Some(home)) == Some(joined(home, own)),
        configured_dir(seq!['~', '/'] + own, None) is None,
        configured_dir(Seq::empty(), Some(home)) is None,
{
    reveal_strlit("~");
    reveal_strlit("~/");
    assert("~"@ =~= seq!['~']);
    lemma_trimmed(Seq::empty(), own, Seq::empty());
    assert(Seq::<char>::empty() + own + Seq::<char>::empty() =~= own);
    let below = seq!['~', '/'] + own;
    lemma_trimmed(Seq::empty(), below, Seq::empty());
    assert(Seq::<char>::empty() + below + Seq::<char>::empty() =~= below);
    assert("~/"@ =~= below.subrange(0, 2));
    assert(below.skip(2) =~= own);
    if "~/"@.is_prefix_of(own) {
        assert(own.subrange(0, 2)[0] == "~/"@[0]);
    }
    assert(trim(Seq::<char>::empty()) =~= Seq::<char>::empty());
}

} // verus!
