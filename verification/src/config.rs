//! Configuration: what the operator sets in the environment, and the bounds and
//! repositories that follow from it.

use crate::json;
use crate::number;
use crate::number::NumberError;
use crate::text;
use std::collections::HashMap;
use std::str::FromStr;
use vstd::prelude::*;

verus! {

broadcast use vstd::std_specs::hash::group_hash_axioms;

// ---------------------------------------------------------------------------
// Repositories
// ---------------------------------------------------------------------------
/// A GitHub repository the bot can file issues into.
#[derive(Debug, PartialEq, Eq, Hash)]
pub struct Repo {
    pub owner: String,
    pub name: String,
}

/// What a [`Repo`] holds.
#[verifier::ext_equal]
pub struct RepoView {
    pub owner: Seq<char>,
    pub name: Seq<char>,
}

impl RepoView {
    /// `owner/name`.
    pub open spec fn slug(self) -> Seq<char> {
        self.owner + "/"@ + self.name
    }
}

impl View for Repo {
    type V = RepoView;

    open spec fn view(&self) -> RepoView {
        RepoView { owner: self.owner@, name: self.name@ }
    }
}

impl Clone for Repo {
    fn clone(&self) -> (r: Self)
        ensures
            r@ == self@,
    {
        Repo { owner: self.owner.clone(), name: self.name.clone() }
    }
}

/// A text that names no repository.
#[derive(Debug)]
pub struct RepoError {
    /// The text, without the parts that do not count.
    pub got: String,
}

/// What an error about the repository `got` says.
pub open spec fn repo_complaint(got: Seq<char>) -> Seq<char> {
    "expected `owner/repo`, got `"@ + got + "`"@
}

impl RepoError {
    /// The error in words.
    pub fn to_string(&self) -> (r: String)
        ensures
            r@ == repo_complaint(self.got@),
    {
        let mut out = "expected `owner/repo`, got `".to_owned();
        out.append(self.got.as_str());
        out.append("`");
        out
    }
}

/// What counts of a text that names a repository: not the white space around
/// it, not the address of GitHub before it, not the slashes behind it.
pub open spec fn repo_path(s: Seq<char>) -> Seq<char> {
    text::without_trailing(
        text::without_prefixes(text::trimmed(s), "https://github.com/"@),
        '/',
    )
}

/// The repository that `s` names; otherwise, what was read of it.
pub open spec fn repo_of(s: Seq<char>) -> Result<RepoView, Seq<char>> {
    let parts = text::pieces(repo_path(s), '/');
    if parts.len() == 2 && parts[0].len() > 0 && parts[1].len() > 0 {
        Ok(RepoView { owner: parts[0], name: parts[1] })
    } else {
        Err(repo_path(s))
    }
}

impl Repo {
    /// Reads `owner/repo`, or the repository's address on GitHub.
    pub fn parse(s: &str) -> (r: Result<Repo, RepoError>)
        ensures
            match r {
                Ok(repo) => repo_of(s@) == Ok::<RepoView, Seq<char>>(repo@),
                Err(e) => repo_of(s@) == Err::<RepoView, Seq<char>>(e.got@),
            },
    {
        let trimmed = text::trim(s);
        let path = text::strip_prefixes(trimmed.as_str(), "https://github.com/");
        let path = text::strip_trailing(path.as_str(), '/');
        let parts = text::split(path.as_str(), '/');
        assert(text::texts(parts@).len() == parts@.len());
        if parts.len() == 2 {
            assert(text::texts(parts@)[0] == parts@[0]@);
            assert(text::texts(parts@)[1] == parts@[1]@);
            if text::count_chars(parts[0].as_str()) > 0 && text::count_chars(parts[1].as_str())
                > 0 {
                return Ok(Repo { owner: parts[0].clone(), name: parts[1].clone() });
            }
        }
        Err(RepoError { got: path })
    }

    /// `owner/name`.
    pub fn to_string(&self) -> (r: String)
        ensures
            r@ == self@.slug(),
    {
        let mut out = self.owner.clone();
        out.append("/");
        out.append(self.name.as_str());
        out
    }

    /// Whether the two are the same repository.
    pub fn same(&self, other: &Repo) -> (r: bool)
        ensures
            r == (self@ == other@),
    {
        text::same(self.owner.as_str(), other.owner.as_str()) && text::same(
            self.name.as_str(),
            other.name.as_str(),
        )
    }
}

impl FromStr for Repo {
    type Err = RepoError;

    /// Reads `owner/repo`, or the repository's address on GitHub.
    fn from_str(s: &str) -> (r: Result<Self, RepoError>)
        ensures
            match r {
                Ok(repo) => repo_of(s@) == Ok::<RepoView, Seq<char>>(repo@),
                Err(e) => repo_of(s@) == Err::<RepoView, Seq<char>>(e.got@),
            },
    {
        Repo::parse(s)
    }
}

// ---------------------------------------------------------------------------
// Limits
// ---------------------------------------------------------------------------
/// Every bound on how much thread content we are willing to handle.
///
/// These exist so that a thread that is long by accident (a busy support
/// channel) or long on purpose (someone pasting a megabyte of text to burn
/// tokens or to smuggle instructions past the model) costs a bounded amount.
#[derive(Debug)]
pub struct Limits {
    /// Hard cap on how many thread messages we fetch from Discord.
    pub max_messages: usize,
    /// Per-message character cap before it is elided.
    pub max_message_chars: usize,
    /// Total characters of transcript handed to the model.
    pub max_llm_chars: usize,
    /// Total characters of the rendered GitHub issue body (GitHub's own cap is 65536).
    pub max_body_chars: usize,
    /// How many attachments we carry over per thread.
    pub max_attachments: usize,
    /// Minimum seconds between two requests from the same user.
    pub user_cooldown_secs: u64,
}

impl Clone for Limits {
    fn clone(&self) -> (r: Self)
        ensures
            r == *self,
    {
        Limits {
            max_messages: self.max_messages,
            max_message_chars: self.max_message_chars,
            max_llm_chars: self.max_llm_chars,
            max_body_chars: self.max_body_chars,
            max_attachments: self.max_attachments,
            user_cooldown_secs: self.user_cooldown_secs,
        }
    }
}

/// The limits that hold where the operator sets none.
pub open spec fn default_limits() -> Limits {
    Limits {
        max_messages: 200,
        max_message_chars: 2_000,
        max_llm_chars: 24_000,
        max_body_chars: 60_000,
        max_attachments: 20,
        user_cooldown_secs: 20,
    }
}

impl Default for Limits {
    fn default() -> (r: Self)
        ensures
            r == default_limits(),
    {
        Limits {
            max_messages: 200,
            max_message_chars: 2_000,
            max_llm_chars: 24_000,
            max_body_chars: 60_000,
            max_attachments: 20,
            user_cooldown_secs: 20,
        }
    }
}

// ---------------------------------------------------------------------------
// Errors
// ---------------------------------------------------------------------------
/// Why there is no configuration.
#[derive(Debug)]
pub enum ConfigError {
    /// A variable that must be set is not.
    Unset { key: String },
    /// `GITHUB_REPO` names no repository.
    DefaultRepo { got: String },
    /// `GITHUB_REPO_MAP` is no JSON object of strings.
    MapSyntax { detail: String },
    /// A key of `GITHUB_REPO_MAP` is no guild id.
    MapGuild { got: String, why: NumberError },
    /// A value of `GITHUB_REPO_MAP` names no repository.
    MapRepo { got: String },
    /// An entry of `ALLOWED_ROLE_IDS` is no id.
    Role { got: String, why: NumberError },
    /// A variable that must be a number is none.
    Number { key: String, why: NumberError },
    /// There is nowhere to file issues.
    NoRepo,
}

/// What a [`ConfigError`] holds.
#[verifier::ext_equal]
pub enum ConfigErrorView {
    Unset { key: Seq<char> },
    DefaultRepo { got: Seq<char> },
    MapSyntax { detail: Seq<char> },
    MapGuild { got: Seq<char>, why: NumberError },
    MapRepo { got: Seq<char> },
    Role { got: Seq<char>, why: NumberError },
    Number { key: Seq<char>, why: NumberError },
    NoRepo,
}

impl View for ConfigError {
    type V = ConfigErrorView;

    open spec fn view(&self) -> ConfigErrorView {
        match self {
            ConfigError::Unset { key } => ConfigErrorView::Unset { key: key@ },
            ConfigError::DefaultRepo { got } => ConfigErrorView::DefaultRepo { got: got@ },
            ConfigError::MapSyntax { detail } => ConfigErrorView::MapSyntax { detail: detail@ },
            ConfigError::MapGuild { got, why } => ConfigErrorView::MapGuild {
                got: got@,
                why: *why,
            },
            ConfigError::MapRepo { got } => ConfigErrorView::MapRepo { got: got@ },
            ConfigError::Role { got, why } => ConfigErrorView::Role { got: got@, why: *why },
            ConfigError::Number { key, why } => ConfigErrorView::Number { key: key@, why: *why },
            ConfigError::NoRepo => ConfigErrorView::NoRepo,
        }
    }
}

impl ConfigErrorView {
    /// The error in words, then what caused it, then what caused that.
    pub open spec fn chain(self) -> Seq<Seq<char>> {
        match self {
            ConfigErrorView::Unset { key } => seq![key + " is required but unset"@],
            ConfigErrorView::DefaultRepo { got } => seq!["GITHUB_REPO"@, repo_complaint(got)],
            ConfigErrorView::MapSyntax { detail } => seq![
                "GITHUB_REPO_MAP must be JSON like {\"<guild id>\": \"owner/repo\"}"@,
                detail,
            ],
            ConfigErrorView::MapGuild { got, why } => seq![
                "GITHUB_REPO_MAP key `"@ + got + "` is not a guild id"@,
                why.text(),
            ],
            ConfigErrorView::MapRepo { got } => seq![repo_complaint(got)],
            ConfigErrorView::Role { got, why } => seq![
                "ALLOWED_ROLE_IDS"@,
                "`"@ + got + "` is not an id"@,
                why.text(),
            ],
            ConfigErrorView::Number { key, why } => seq![key + ": "@ + why.text()],
            ConfigErrorView::NoRepo => seq![
                "set GITHUB_REPO (e.g. `owner/repo`) or GITHUB_REPO_MAP, otherwise the bot has nowhere to file issues"@,
            ],
        }
    }
}

impl ConfigError {
    /// The error in words, then what caused it, then what caused that.
    pub fn chain(&self) -> (r: Vec<String>)
        ensures
            text::texts(r@) == self@.chain(),
            r@.len() >= 1,
    {
        let mut out: Vec<String> = Vec::new();
        match self {
            ConfigError::Unset { key } => {
                let mut line = key.clone();
                line.append(" is required but unset");
                out.push(line);
            },
            ConfigError::DefaultRepo { got } => {
                out.push("GITHUB_REPO".to_owned());
                out.push(RepoError { got: got.clone() }.to_string());
            },
            ConfigError::MapSyntax { detail } => {
                out.push(
                    "GITHUB_REPO_MAP must be JSON like {\"<guild id>\": \"owner/repo\"}".to_owned(),
                );
                out.push(detail.clone());
            },
            ConfigError::MapGuild { got, why } => {
                let mut line = "GITHUB_REPO_MAP key `".to_owned();
                line.append(got.as_str());
                line.append("` is not a guild id");
                out.push(line);
                out.push(why.message());
            },
            ConfigError::MapRepo { got } => {
                out.push(RepoError { got: got.clone() }.to_string());
            },
            ConfigError::Role { got, why } => {
                out.push("ALLOWED_ROLE_IDS".to_owned());
                let mut line = "`".to_owned();
                line.append(got.as_str());
                line.append("` is not an id");
                out.push(line);
                out.push(why.message());
            },
            ConfigError::Number { key, why } => {
                let mut line = key.clone();
                line.append(": ");
                line.append(why.message().as_str());
                out.push(line);
            },
            ConfigError::NoRepo => {
                out.push(
                    "set GITHUB_REPO (e.g. `owner/repo`) or GITHUB_REPO_MAP, otherwise the bot has nowhere to file issues".to_owned(),
                );
            },
        }
        assert(text::texts(out@) =~= self@.chain());
        out
    }

    /// The error in words.
    pub fn to_string(&self) -> (r: String)
        ensures
            r@ == self@.chain()[0],
    {
        let chain = self.chain();
        assert(text::texts(chain@)[0] == chain@[0]@);
        chain[0].clone()
    }
}

// ---------------------------------------------------------------------------
// The environment
// ---------------------------------------------------------------------------
/// What the variable `key` is set to: the first entry of that name.
pub open spec fn variable(vars: Seq<(Seq<char>, Seq<char>)>, key: Seq<char>) -> Option<Seq<char>>
    decreases vars.len(),
{
    if vars.len() == 0 {
        None
    } else if vars[0].0 == key {
        Some(vars[0].1)
    } else {
        variable(vars.skip(1), key)
    }
}

/// The setting `key`: what the variable is set to, trimmed; a blank one is as
/// good as none.
pub open spec fn setting(vars: Seq<(Seq<char>, Seq<char>)>, key: Seq<char>) -> Option<Seq<char>> {
    match variable(vars, key) {
        Some(v) => if text::trimmed(v).len() > 0 {
            Some(text::trimmed(v))
        } else {
            None
        },
        None => None,
    }
}

/// Reads the setting `key`.
pub fn optional(vars: &[(String, String)], key: &str) -> (r: Option<String>)
    ensures
        text::opt_text(r) == setting(text::pair_texts(vars@), key@),
{
    let ghost all = text::pair_texts(vars@);
    let mut i: usize = 0;
    assert(all.skip(0) =~= all);
    while i < vars.len()
        invariant
            i <= vars@.len(),
            all == text::pair_texts(vars@),
            variable(all, key@) == variable(all.skip(i as int), key@),
        decreases vars@.len() - i,
    {
        assert(all.skip(i as int)[0] == (vars@[i as int].0@, vars@[i as int].1@));
        if text::same(vars[i].0.as_str(), key) {
            let value = text::trim(vars[i].1.as_str());
            if text::count_chars(value.as_str()) > 0 {
                return Some(value);
            }
            return None;
        }
        assert(all.skip(i as int).skip(1) =~= all.skip(i + 1));
        i += 1;
    }
    None
}

/// The setting `key`, which must be there.
pub open spec fn required(
    vars: Seq<(Seq<char>, Seq<char>)>,
    key: Seq<char>,
) -> Result<Seq<char>, ConfigErrorView> {
    match setting(vars, key) {
        Some(v) => Ok(v),
        None => Err(ConfigErrorView::Unset { key }),
    }
}

/// Reads the setting `key`, which must be there.
pub fn require(vars: &[(String, String)], key: &str) -> (r: Result<String, ConfigError>)
    ensures
        match r {
            Ok(v) => required(text::pair_texts(vars@), key@) == Ok::<Seq<char>, ConfigErrorView>(
                v@,
            ),
            Err(e) => required(text::pair_texts(vars@), key@) == Err::<Seq<char>, ConfigErrorView>(
                e@,
            ),
        },
{
    match optional(vars, key) {
        Some(v) => Ok(v),
        None => Err(ConfigError::Unset { key: key.to_owned() }),
    }
}

/// The setting `key` as a number up to `max`; `default` where it is not set.
pub open spec fn numeric(
    vars: Seq<(Seq<char>, Seq<char>)>,
    key: Seq<char>,
    default: nat,
    max: nat,
) -> Result<nat, ConfigErrorView> {
    match setting(vars, key) {
        None => Ok(default),
        Some(v) => match number::number(v, max) {
            Ok(n) => Ok(n),
            Err(why) => Err(ConfigErrorView::Number { key, why }),
        },
    }
}

/// Reads the setting `key` as a number up to `max`.
pub fn num(vars: &[(String, String)], key: &str, default: u64, max: u64) -> (r: Result<
    u64,
    ConfigError,
>)
    requires
        default <= max,
    ensures
        match r {
            Ok(n) => numeric(text::pair_texts(vars@), key@, default as nat, max as nat) == Ok::<
                nat,
                ConfigErrorView,
            >(n as nat),
            Err(e) => numeric(text::pair_texts(vars@), key@, default as nat, max as nat) == Err::<
                nat,
                ConfigErrorView,
            >(e@),
        },
        r matches Ok(n) ==> n <= max,
{
    match optional(vars, key) {
        None => Ok(default),
        Some(v) => match number::parse_number(v.as_str(), max) {
            Ok(n) => Ok(n),
            Err(why) => Err(ConfigError::Number { key: key.to_owned(), why }),
        },
    }
}

/// The ids among `parts`: blank parts do not count, and the first that is no id
/// is what is reported.
pub open spec fn ids(parts: Seq<Seq<char>>) -> Result<Seq<u64>, ConfigErrorView>
    decreases parts.len(),
{
    if parts.len() == 0 {
        Ok(Seq::empty())
    } else {
        match ids(parts.drop_last()) {
            Err(e) => Err(e),
            Ok(before) => {
                let part = text::trimmed(parts.last());
                if part.len() == 0 {
                    Ok(before)
                } else {
                    match number::number(part, u64::MAX as nat) {
                        Ok(n) => Ok(before.push(n as u64)),
                        Err(why) => Err(ConfigErrorView::Role { got: part, why }),
                    }
                }
            },
        }
    }
}

/// The ids that a comma-separated list names; none where there is no list.
pub open spec fn id_list(raw: Option<Seq<char>>) -> Result<Seq<u64>, ConfigErrorView> {
    match raw {
        Some(s) => ids(text::pieces(s, ',')),
        None => Ok(Seq::empty()),
    }
}

proof fn lemma_ids_error_sticks(parts: Seq<Seq<char>>, i: int)
    requires
        0 <= i <= parts.len(),
        ids(parts.take(i)) is Err,
    ensures
        ids(parts) == ids(parts.take(i)),
    decreases parts.len() - i,
{
    if i < parts.len() {
        assert(parts.take(i + 1).drop_last() =~= parts.take(i));
        lemma_ids_error_sticks(parts, i + 1);
    } else {
        assert(parts.take(i) =~= parts);
    }
}

/// The text that an optional text holds.
pub open spec fn opt_str(raw: Option<&str>) -> Option<Seq<char>> {
    match raw {
        Some(s) => Some(s@),
        None => None,
    }
}

/// Reads a comma-separated list of ids.
pub fn parse_id_list(raw: Option<&str>) -> (r: Result<Vec<u64>, ConfigError>)
    ensures
        match r {
            Ok(v) => id_list(opt_str(raw)) == Ok::<Seq<u64>, ConfigErrorView>(v@),
            Err(e) => id_list(opt_str(raw)) == Err::<Seq<u64>, ConfigErrorView>(e@),
        },
{
    let mut out: Vec<u64> = Vec::new();
    let list = match raw {
        Some(s) => s,
        None => {
            return Ok(out);
        },
    };
    let parts = text::split(list, ',');
    let ghost all = text::texts(parts@);
    let mut i: usize = 0;
    assert(all.take(0) =~= Seq::<Seq<char>>::empty());
    while i < parts.len()
        invariant
            i <= parts@.len(),
            all == text::texts(parts@),
            all == text::pieces(list@, ','),
            opt_str(raw) == Some(list@),
            ids(all.take(i as int)) == Ok::<Seq<u64>, ConfigErrorView>(out@),
        decreases parts@.len() - i,
    {
        proof {
            assert(all.take(i + 1).drop_last() =~= all.take(i as int));
            assert(all.take(i + 1).last() == parts@[i as int]@);
            if ids(all.take(i + 1)) is Err {
                lemma_ids_error_sticks(all, i + 1);
            }
        }
        let part = text::trim(parts[i].as_str());
        if text::count_chars(part.as_str()) > 0 {
            match number::parse_number(part.as_str(), u64::MAX) {
                Ok(n) => {
                    out.push(n);
                },
                Err(why) => {
                    return Err(ConfigError::Role { got: part, why });
                },
            }
        }
        i += 1;
    }
    assert(all.take(i as int) =~= all);
    Ok(out)
}

// ---------------------------------------------------------------------------
// Repositories by guild
// ---------------------------------------------------------------------------
/// What a table of repositories holds.
pub open spec fn repos(m: Map<u64, Repo>) -> Map<u64, RepoView> {
    m.map_values(|r: Repo| r@)
}

/// What one member of the guild map says: a guild's id and its repository.
pub open spec fn guild_entry(pair: (Seq<char>, Seq<char>)) -> Result<
    (u64, RepoView),
    ConfigErrorView,
> {
    match number::number(pair.0, u64::MAX as nat) {
        Err(why) => Err(ConfigErrorView::MapGuild { got: pair.0, why }),
        Ok(guild) => match repo_of(pair.1) {
            Err(got) => Err(ConfigErrorView::MapRepo { got }),
            Ok(repo) => Ok((guild as u64, repo)),
        },
    }
}

/// What the members of the guild map say, taken in the order they are in: the
/// first faulty one is what is reported, and of two on one guild the later
/// counts.
pub open spec fn guild_table(pairs: Seq<(Seq<char>, Seq<char>)>) -> Result<
    Map<u64, RepoView>,
    ConfigErrorView,
>
    decreases pairs.len(),
{
    if pairs.len() == 0 {
        Ok(Map::empty())
    } else {
        match guild_table(pairs.drop_last()) {
            Err(e) => Err(e),
            Ok(before) => match guild_entry(pairs.last()) {
                Err(e) => Err(e),
                Ok(entry) => Ok(before.insert(entry.0, entry.1)),
            },
        }
    }
}

proof fn lemma_guild_error_sticks(pairs: Seq<(Seq<char>, Seq<char>)>, i: int)
    requires
        0 <= i <= pairs.len(),
        guild_table(pairs.take(i)) is Err,
    ensures
        guild_table(pairs) == guild_table(pairs.take(i)),
    decreases pairs.len() - i,
{
    if i < pairs.len() {
        assert(pairs.take(i + 1).drop_last() =~= pairs.take(i));
        lemma_guild_error_sticks(pairs, i + 1);
    } else {
        assert(pairs.take(i) =~= pairs);
    }
}

/// What a result of reading the guild map holds.
pub open spec fn guild_result(r: Result<HashMap<u64, Repo>, ConfigError>) -> Result<
    Map<u64, RepoView>,
    ConfigErrorView,
> {
    match r {
        Ok(m) => Ok(repos(m@)),
        Err(e) => Err(e@),
    }
}

/// Reads the members of the guild map, in the order they are in.
pub fn collect_guild_repos(pairs: &[(String, String)]) -> (r: Result<
    HashMap<u64, Repo>,
    ConfigError,
>)
    ensures
        guild_result(r) == guild_table(text::pair_texts(pairs@)),
{
    let ghost all = text::pair_texts(pairs@);
    let mut out: HashMap<u64, Repo> = HashMap::new();
    let mut i: usize = 0;
    proof {
        assert(all.take(0) =~= Seq::<(Seq<char>, Seq<char>)>::empty());
        assert(repos(out@) =~= Map::<u64, RepoView>::empty());
    }
    while i < pairs.len()
        invariant
            i <= pairs@.len(),
            all == text::pair_texts(pairs@),
            guild_table(all.take(i as int)) == Ok::<Map<u64, RepoView>, ConfigErrorView>(
                repos(out@),
            ),
        decreases pairs@.len() - i,
    {
        proof {
            assert(all.take(i + 1).drop_last() =~= all.take(i as int));
            assert(all.take(i + 1).last() == (pairs@[i as int].0@, pairs@[i as int].1@));
            if guild_table(all.take(i + 1)) is Err {
                lemma_guild_error_sticks(all, i + 1);
            }
        }
        let guild: u64 = match number::parse_number(pairs[i].0.as_str(), u64::MAX) {
            Ok(n) => n,
            Err(why) => {
                return Err(ConfigError::MapGuild { got: pairs[i].0.clone(), why });
            },
        };
        let repo = match Repo::parse(pairs[i].1.as_str()) {
            Ok(repo) => repo,
            Err(e) => {
                return Err(ConfigError::MapRepo { got: e.got });
            },
        };
        let ghost before = out@;
        out.insert(guild, repo);
        assert(repos(out@) =~= repos(before).insert(guild, repo@));
        i += 1;
    }
    assert(all.take(i as int) =~= all);
    Ok(out)
}

/// Whether `table` is what the guild map `raw` comes to. The members of a JSON
/// object come in no particular order, so where several are faulty, or several
/// are on one guild, more than one table will do.
pub open spec fn guild_reading(
    raw: Option<Seq<char>>,
    table: Result<Map<u64, RepoView>, ConfigErrorView>,
) -> bool {
    match raw {
        None => table == Ok::<Map<u64, RepoView>, ConfigErrorView>(Map::empty()),
        Some(s) => match json::string_object(s) {
            Err(detail) => table == Err::<Map<u64, RepoView>, ConfigErrorView>(
                ConfigErrorView::MapSyntax { detail },
            ),
            Ok(m) => exists|pairs: Seq<(Seq<char>, Seq<char>)>| #[trigger]
                json::writes_out(pairs, m) && table == guild_table(pairs),
        },
    }
}

/// Reads `{"123456789": "owner/repo"}`, which lets one deployment serve several
/// servers.
pub fn parse_guild_repos(raw: Option<&str>) -> (r: Result<HashMap<u64, Repo>, ConfigError>)
    ensures
        guild_reading(opt_str(raw), guild_result(r)),
{
    let raw = match raw {
        Some(s) => s,
        None => {
            let out: HashMap<u64, Repo> = HashMap::new();
            assert(repos(out@) =~= Map::<u64, RepoView>::empty());
            return Ok(out);
        },
    };
    match json::read_string_object(raw) {
        Ok(pairs) => {
            assert(json::writes_out(
                text::pair_texts(pairs@),
                json::string_object(raw@)->Ok_0,
            ));
            collect_guild_repos(pairs.as_slice())
        },
        Err(detail) => Err(ConfigError::MapSyntax { detail }),
    }
}

// ---------------------------------------------------------------------------
// The configuration
// ---------------------------------------------------------------------------
/// How the bot is set up.
#[derive(Debug)]
pub struct Config {
    pub discord_token: String,
    pub openai_api_key: String,
    pub openai_model: String,
    pub openai_base_url: String,
    pub github_token: String,
    /// Fallback repo, used for any guild without an explicit mapping.
    pub default_repo: Option<Repo>,
    /// Per-guild overrides, keyed by Discord guild id.
    pub guild_repos: HashMap<u64, Repo>,
    /// If non-empty, a user must hold one of these roles to file an issue.
    pub allowed_role_ids: Vec<u64>,
    pub limits: Limits,
    pub port: u16,
}

/// What a [`Config`] holds.
#[verifier::ext_equal]
pub struct ConfigView {
    pub discord_token: Seq<char>,
    pub openai_api_key: Seq<char>,
    pub openai_model: Seq<char>,
    pub openai_base_url: Seq<char>,
    pub github_token: Seq<char>,
    pub default_repo: Option<RepoView>,
    pub guild_repos: Map<u64, RepoView>,
    pub allowed_role_ids: Seq<u64>,
    pub limits: Limits,
    pub port: u16,
}

/// What an optional repository holds.
pub open spec fn opt_repo(r: Option<Repo>) -> Option<RepoView> {
    match r {
        Some(repo) => Some(repo@),
        None => None,
    }
}

impl View for Config {
    type V = ConfigView;

    open spec fn view(&self) -> ConfigView {
        ConfigView {
            discord_token: self.discord_token@,
            openai_api_key: self.openai_api_key@,
            openai_model: self.openai_model@,
            openai_base_url: self.openai_base_url@,
            github_token: self.github_token@,
            default_repo: opt_repo(self.default_repo),
            guild_repos: repos(self.guild_repos@),
            allowed_role_ids: self.allowed_role_ids@,
            limits: self.limits,
            port: self.port,
        }
    }
}

impl Clone for Config {
    fn clone(&self) -> (r: Self)
        ensures
            r@ == self@,
    {
        Config {
            discord_token: self.discord_token.clone(),
            openai_api_key: self.openai_api_key.clone(),
            openai_model: self.openai_model.clone(),
            openai_base_url: self.openai_base_url.clone(),
            github_token: self.github_token.clone(),
            default_repo: match &self.default_repo {
                Some(repo) => Some(repo.clone()),
                None => None,
            },
            guild_repos: self.guild_repos.clone(),
            allowed_role_ids: self.allowed_role_ids.clone(),
            limits: self.limits.clone(),
            port: self.port,
        }
    }
}

/// The setting `key`, or `default` where it is not set.
pub open spec fn setting_or(
    vars: Seq<(Seq<char>, Seq<char>)>,
    key: Seq<char>,
    default: Seq<char>,
) -> Seq<char> {
    match setting(vars, key) {
        Some(v) => v,
        None => default,
    }
}

fn optional_or(vars: &[(String, String)], key: &str, default: &str) -> (r: String)
    ensures
        r@ == setting_or(text::pair_texts(vars@), key@, default@),
{
    match optional(vars, key) {
        Some(v) => v,
        None => default.to_owned(),
    }
}

/// The repository that `GITHUB_REPO` names, where it is set.
pub open spec fn default_repo(vars: Seq<(Seq<char>, Seq<char>)>) -> Result<
    Option<RepoView>,
    ConfigErrorView,
> {
    match setting(vars, "GITHUB_REPO"@) {
        None => Ok(None),
        Some(v) => match repo_of(v) {
            Ok(repo) => Ok(Some(repo)),
            Err(got) => Err(ConfigErrorView::DefaultRepo { got }),
        },
    }
}

fn read_default_repo(vars: &[(String, String)]) -> (r: Result<Option<Repo>, ConfigError>)
    ensures
        match r {
            Ok(repo) => default_repo(text::pair_texts(vars@)) == Ok::<
                Option<RepoView>,
                ConfigErrorView,
            >(opt_repo(repo)),
            Err(e) => default_repo(text::pair_texts(vars@)) == Err::<
                Option<RepoView>,
                ConfigErrorView,
            >(e@),
        },
{
    match optional(vars, "GITHUB_REPO") {
        None => Ok(None),
        Some(v) => match Repo::parse(v.as_str()) {
            Ok(repo) => Ok(Some(repo)),
            Err(e) => Err(ConfigError::DefaultRepo { got: e.got }),
        },
    }
}

/// One of the limits, as a number that fits in a `usize`.
pub open spec fn count_limit(
    vars: Seq<(Seq<char>, Seq<char>)>,
    key: Seq<char>,
    default: usize,
) -> Result<nat, ConfigErrorView> {
    numeric(vars, key, default as nat, usize::MAX as nat)
}

fn read_count(vars: &[(String, String)], key: &str, default: usize) -> (r: Result<
    usize,
    ConfigError,
>)
    ensures
        match r {
            Ok(n) => count_limit(text::pair_texts(vars@), key@, default) == Ok::<
                nat,
                ConfigErrorView,
            >(n as nat),
            Err(e) => count_limit(text::pair_texts(vars@), key@, default) == Err::<
                nat,
                ConfigErrorView,
            >(e@),
        },
{
    match num(vars, key, default as u64, usize::MAX as u64) {
        Ok(n) => Ok(n as usize),
        Err(e) => Err(e),
    }
}

/// GitHub rejects longer issue bodies than this.
pub const BODY_CEILING: usize = 65_000;

/// The first thing that is wrong with the environment, if anything is;
/// `guilds` is what the guild map in it comes to.
pub open spec fn complaint(
    vars: Seq<(Seq<char>, Seq<char>)>,
    guilds: Result<Map<u64, RepoView>, ConfigErrorView>,
) -> Option<ConfigErrorView> {
    let limits = default_limits();
    if required(vars, "DISCORD_TOKEN"@) is Err {
        Some(required(vars, "DISCORD_TOKEN"@)->Err_0)
    } else if required(vars, "OPENAI_API_KEY"@) is Err {
        Some(required(vars, "OPENAI_API_KEY"@)->Err_0)
    } else if required(vars, "GITHUB_TOKEN"@) is Err {
        Some(required(vars, "GITHUB_TOKEN"@)->Err_0)
    } else if default_repo(vars) is Err {
        Some(default_repo(vars)->Err_0)
    } else if guilds is Err {
        Some(guilds->Err_0)
    } else if id_list(setting(vars, "ALLOWED_ROLE_IDS"@)) is Err {
        Some(id_list(setting(vars, "ALLOWED_ROLE_IDS"@))->Err_0)
    } else if count_limit(vars, "MAX_THREAD_MESSAGES"@, limits.max_messages) is Err {
        Some(count_limit(vars, "MAX_THREAD_MESSAGES"@, limits.max_messages)->Err_0)
    } else if count_limit(vars, "MAX_MESSAGE_CHARS"@, limits.max_message_chars) is Err {
        Some(count_limit(vars, "MAX_MESSAGE_CHARS"@, limits.max_message_chars)->Err_0)
    } else if count_limit(vars, "MAX_LLM_CHARS"@, limits.max_llm_chars) is Err {
        Some(count_limit(vars, "MAX_LLM_CHARS"@, limits.max_llm_chars)->Err_0)
    } else if count_limit(vars, "MAX_BODY_CHARS"@, limits.max_body_chars) is Err {
        Some(count_limit(vars, "MAX_BODY_CHARS"@, limits.max_body_chars)->Err_0)
    } else if count_limit(vars, "MAX_ATTACHMENTS"@, limits.max_attachments) is Err {
        Some(count_limit(vars, "MAX_ATTACHMENTS"@, limits.max_attachments)->Err_0)
    } else if cooldown_limit(vars) is Err {
        Some(cooldown_limit(vars)->Err_0)
    } else if port_number(vars) is Err {
        Some(port_number(vars)->Err_0)
    } else if default_repo(vars)->Ok_0 is None && guilds->Ok_0.is_empty() {
        Some(ConfigErrorView::NoRepo)
    } else {
        None
    }
}

/// The cooldown, in seconds.
pub open spec fn cooldown_limit(vars: Seq<(Seq<char>, Seq<char>)>) -> Result<
    nat,
    ConfigErrorView,
> {
    numeric(
        vars,
        "USER_COOLDOWN_SECS"@,
        default_limits().user_cooldown_secs as nat,
        u64::MAX as nat,
    )
}

/// The port that the health endpoint listens on.
pub open spec fn port_number(vars: Seq<(Seq<char>, Seq<char>)>) -> Result<nat, ConfigErrorView> {
    numeric(vars, "PORT"@, 8080, u16::MAX as nat)
}

/// The limits that an environment without faults sets.
pub open spec fn limits_set(vars: Seq<(Seq<char>, Seq<char>)>) -> Limits {
    let limits = default_limits();
    let body = count_limit(vars, "MAX_BODY_CHARS"@, limits.max_body_chars)->Ok_0;
    Limits {
        max_messages: count_limit(vars, "MAX_THREAD_MESSAGES"@, limits.max_messages)->Ok_0 as usize,
        max_message_chars: count_limit(
            vars,
            "MAX_MESSAGE_CHARS"@,
            limits.max_message_chars,
        )->Ok_0 as usize,
        max_llm_chars: count_limit(vars, "MAX_LLM_CHARS"@, limits.max_llm_chars)->Ok_0 as usize,
        max_body_chars: if body < BODY_CEILING {
            body as usize
        } else {
            BODY_CEILING
        },
        max_attachments: count_limit(
            vars,
            "MAX_ATTACHMENTS"@,
            limits.max_attachments,
        )->Ok_0 as usize,
        user_cooldown_secs: cooldown_limit(vars)->Ok_0 as u64,
    }
}

/// The configuration that an environment without faults sets.
pub open spec fn settings(
    vars: Seq<(Seq<char>, Seq<char>)>,
    guilds: Map<u64, RepoView>,
) -> ConfigView {
    ConfigView {
        discord_token: required(vars, "DISCORD_TOKEN"@)->Ok_0,
        openai_api_key: required(vars, "OPENAI_API_KEY"@)->Ok_0,
        openai_model: setting_or(vars, "OPENAI_MODEL"@, "gpt-4o-mini"@),
        openai_base_url: text::without_trailing(
            setting_or(vars, "OPENAI_BASE_URL"@, "https://api.openai.com/v1"@),
            '/',
        ),
        github_token: required(vars, "GITHUB_TOKEN"@)->Ok_0,
        default_repo: default_repo(vars)->Ok_0,
        guild_repos: guilds,
        allowed_role_ids: id_list(setting(vars, "ALLOWED_ROLE_IDS"@))->Ok_0,
        limits: limits_set(vars),
        port: port_number(vars)->Ok_0 as u16,
    }
}

/// The configuration that `vars` sets, or the first fault in it.
pub open spec fn configured(
    vars: Seq<(Seq<char>, Seq<char>)>,
    guilds: Result<Map<u64, RepoView>, ConfigErrorView>,
) -> Result<ConfigView, ConfigErrorView> {
    match complaint(vars, guilds) {
        Some(e) => Err(e),
        None => Ok(settings(vars, guilds->Ok_0)),
    }
}

/// What a result of reading the environment holds.
pub open spec fn config_result(r: Result<Config, ConfigError>) -> Result<
    ConfigView,
    ConfigErrorView,
> {
    match r {
        Ok(c) => Ok(c@),
        Err(e) => Err(e@),
    }
}

fn read_limits(vars: &[(String, String)]) -> (r: Result<Limits, ConfigError>)
    ensures
        ({
            let vars = text::pair_texts(vars@);
            let limits = default_limits();
            let a = count_limit(vars, "MAX_THREAD_MESSAGES"@, limits.max_messages);
            let b = count_limit(vars, "MAX_MESSAGE_CHARS"@, limits.max_message_chars);
            let c = count_limit(vars, "MAX_LLM_CHARS"@, limits.max_llm_chars);
            let d = count_limit(vars, "MAX_BODY_CHARS"@, limits.max_body_chars);
            let e = count_limit(vars, "MAX_ATTACHMENTS"@, limits.max_attachments);
            let f = cooldown_limit(vars);
            match r {
                Ok(l) => a is Ok && b is Ok && c is Ok && d is Ok && e is Ok && f is Ok && l
                    == limits_set(vars),
                Err(err) => {
                    ||| a is Err && err@ == a->Err_0
                    ||| a is Ok && b is Err && err@ == b->Err_0
                    ||| a is Ok && b is Ok && c is Err && err@ == c->Err_0
                    ||| a is Ok && b is Ok && c is Ok && d is Err && err@ == d->Err_0
                    ||| a is Ok && b is Ok && c is Ok && d is Ok && e is Err && err@ == e->Err_0
                    ||| a is Ok && b is Ok && c is Ok && d is Ok && e is Ok && f is Err && err@
                        == f->Err_0
                },
            }
        }),
{
    let limits = Limits::default();
    let max_messages = read_count(vars, "MAX_THREAD_MESSAGES", limits.max_messages)?;
    let max_message_chars = read_count(vars, "MAX_MESSAGE_CHARS", limits.max_message_chars)?;
    let max_llm_chars = read_count(vars, "MAX_LLM_CHARS", limits.max_llm_chars)?;
    let max_body_chars = read_count(vars, "MAX_BODY_CHARS", limits.max_body_chars)?;
    let max_attachments = read_count(vars, "MAX_ATTACHMENTS", limits.max_attachments)?;
    let user_cooldown_secs = num(
        vars,
        "USER_COOLDOWN_SECS",
        limits.user_cooldown_secs,
        u64::MAX,
    )?;
    Ok(
        Limits {
            max_messages,
            max_message_chars,
            max_llm_chars,
            max_body_chars: if max_body_chars < BODY_CEILING {
                max_body_chars
            } else {
                BODY_CEILING
            },
            max_attachments,
            user_cooldown_secs,
        },
    )
}

impl Config {
    /// Sets the bot up from the environment variables `vars`.
    pub fn from_env(vars: &[(String, String)]) -> (r: Result<Config, ConfigError>)
        ensures
            exists|guilds: Result<Map<u64, RepoView>, ConfigErrorView>|
                {
                    &&& #[trigger] guild_reading(
                        setting(text::pair_texts(vars@), "GITHUB_REPO_MAP"@),
                        guilds,
                    )
                    &&& config_result(r) == configured(text::pair_texts(vars@), guilds)
                },
    {
        let raw = optional(vars, "GITHUB_REPO_MAP");
        let guilds = match &raw {
            Some(s) => parse_guild_repos(Some(s.as_str())),
            None => parse_guild_repos(None),
        };
        assert(guild_reading(
            setting(text::pair_texts(vars@), "GITHUB_REPO_MAP"@),
            guild_result(guilds),
        ));
        Config::from_settings(vars, guilds)
    }

    /// Sets the bot up from the environment variables `vars`, of which
    /// `GITHUB_REPO_MAP` comes to `guilds`.
    pub fn from_settings(
        vars: &[(String, String)],
        guilds: Result<HashMap<u64, Repo>, ConfigError>,
    ) -> (r: Result<Config, ConfigError>)
        ensures
            config_result(r) == configured(text::pair_texts(vars@), guild_result(guilds)),
    {
        let discord_token = require(vars, "DISCORD_TOKEN")?;
        let openai_api_key = require(vars, "OPENAI_API_KEY")?;
        let openai_model = optional_or(vars, "OPENAI_MODEL", "gpt-4o-mini");
        let base = optional_or(vars, "OPENAI_BASE_URL", "https://api.openai.com/v1");
        let openai_base_url = text::strip_trailing(base.as_str(), '/');
        let github_token = require(vars, "GITHUB_TOKEN")?;
        let default_repo = read_default_repo(vars)?;
        let guild_repos = guilds?;
        let roles = optional(vars, "ALLOWED_ROLE_IDS");
        let allowed_role_ids = match &roles {
            Some(s) => parse_id_list(Some(s.as_str()))?,
            None => parse_id_list(None)?,
        };
        let limits = read_limits(vars)?;
        let port = num(vars, "PORT", 8080, u16::MAX as u64)? as u16;
        if default_repo.is_none() && guild_repos.is_empty() {
            assert(repos(guild_repos@).dom() =~= guild_repos@.dom());
            return Err(ConfigError::NoRepo);
        }
        assert(repos(guild_repos@).dom() =~= guild_repos@.dom());
        Ok(
            Config {
                discord_token,
                openai_api_key,
                openai_model,
                openai_base_url,
                github_token,
                default_repo,
                guild_repos,
                allowed_role_ids,
                limits,
                port,
            },
        )
    }

    /// The repo a given guild files into: its own mapping, else the default.
    pub fn repo_for_guild(&self, guild_id: u64) -> (r: Option<&Repo>)
        ensures
            match r {
                Some(repo) => repo_for(self@, guild_id) == Some(repo@),
                None => repo_for(self@, guild_id) is None,
            },
    {
        match self.guild_repos.get(&guild_id) {
            Some(repo) => Some(repo),
            None => match &self.default_repo {
                Some(repo) => Some(repo),
                None => None,
            },
        }
    }
}

/// The repo that the guild `guild_id` files into.
pub open spec fn repo_for(cfg: ConfigView, guild_id: u64) -> Option<RepoView> {
    if cfg.guild_repos.contains_key(guild_id) {
        Some(cfg.guild_repos[guild_id])
    } else {
        cfg.default_repo
    }
}

} // verus!
