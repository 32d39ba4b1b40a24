//! What holds of every configuration.

use crate::config;
use crate::config::{ConfigErrorView, ConfigView, RepoView};
use crate::json;
use crate::laws::text::{law_splitting_loses_nothing, law_trimming_keeps_the_core};
use crate::number;
use crate::number::NumberError;
use crate::text;
use vstd::prelude::*;

verus! {

/// A bot that could be set up has somewhere to file issues, and its bodies stay
/// below what GitHub takes.
pub proof fn law_a_configured_bot_has_somewhere_to_file(
    vars: Seq<(Seq<char>, Seq<char>)>,
    guilds: Result<Map<u64, RepoView>, ConfigErrorView>,
)
    requires
        config::configured(vars, guilds) is Ok,
    ensures
        ({
            let cfg = config::configured(vars, guilds)->Ok_0;
            &&& cfg.default_repo is Some || !cfg.guild_repos.is_empty()
            &&& cfg.limits.max_body_chars <= 65_000
        }),
{
}

// ---------------------------------------------------------------------------
// The guild map
// ---------------------------------------------------------------------------
proof fn lemma_guild_table(pairs: Seq<(Seq<char>, Seq<char>)>)
    requires
        forall|i: int| 0 <= i < pairs.len() ==> config::guild_entry(#[trigger] pairs[i]) is Ok,
        forall|i: int, j: int|
            0 <= i < j < pairs.len() ==> config::guild_entry(#[trigger] pairs[i])->Ok_0.0
                != config::guild_entry(#[trigger] pairs[j])->Ok_0.0,
    ensures
        config::guild_table(pairs) is Ok,
        forall|i: int|
            0 <= i < pairs.len() ==> config::guild_table(pairs)->Ok_0.contains_key(
                config::guild_entry(#[trigger] pairs[i])->Ok_0.0,
            ) && config::guild_table(pairs)->Ok_0[config::guild_entry(pairs[i])->Ok_0.0]
                == config::guild_entry(pairs[i])->Ok_0.1,
        forall|g: u64| #[trigger]
            config::guild_table(pairs)->Ok_0.contains_key(g) ==> exists|i: int|
                0 <= i < pairs.len() && config::guild_entry(#[trigger] pairs[i])->Ok_0.0 == g,
    decreases pairs.len(),
{
    if pairs.len() > 0 {
        let shorter = pairs.drop_last();
        assert forall|i: int| 0 <= i < shorter.len() implies config::guild_entry(
            #[trigger] shorter[i],
        ) is Ok by {
            assert(shorter[i] == pairs[i]);
        }
        assert forall|i: int, j: int| 0 <= i < j < shorter.len() implies config::guild_entry(
            #[trigger] shorter[i],
        )->Ok_0.0 != config::guild_entry(#[trigger] shorter[j])->Ok_0.0 by {
            assert(shorter[i] == pairs[i]);
            assert(shorter[j] == pairs[j]);
        }
        lemma_guild_table(shorter);
        let last = pairs[pairs.len() - 1];
        assert(config::guild_entry(last) is Ok);
        let before = config::guild_table(shorter)->Ok_0;
        let all = config::guild_table(pairs)->Ok_0;
        assert forall|i: int| 0 <= i < pairs.len() implies all.contains_key(
            config::guild_entry(#[trigger] pairs[i])->Ok_0.0,
        ) && all[config::guild_entry(pairs[i])->Ok_0.0] == config::guild_entry(
            pairs[i],
        )->Ok_0.1 by {
            if i < shorter.len() {
                assert(shorter[i] == pairs[i]);
                assert(config::guild_entry(pairs[i])->Ok_0.0 != config::guild_entry(
                    pairs[pairs.len() - 1],
                )->Ok_0.0);
            }
        }
        assert forall|g: u64| #[trigger] all.contains_key(g) implies exists|i: int|
            0 <= i < pairs.len() && config::guild_entry(#[trigger] pairs[i])->Ok_0.0 == g by {
            if g == config::guild_entry(last)->Ok_0.0 {
                assert(config::guild_entry(pairs[pairs.len() - 1])->Ok_0.0 == g);
            } else {
                assert(before.contains_key(g));
                let i = choose|i: int|
                    0 <= i < shorter.len() && config::guild_entry(#[trigger] shorter[i])->Ok_0.0
                        == g;
                assert(shorter[i] == pairs[i]);
            }
        }
    }
}

/// Whether every member of a guild map names a guild and a repository, and no
/// guild is named twice.
pub open spec fn sound_guild_map(m: Map<Seq<char>, Seq<char>>) -> bool {
    &&& forall|k: Seq<char>| #[trigger]
        m.contains_key(k) ==> config::guild_entry((k, m[k])) is Ok
    &&& forall|j: Seq<char>, k: Seq<char>|
        #![trigger m.contains_key(j), m.contains_key(k)]
        m.contains_key(j) && m.contains_key(k) && j != k ==> config::guild_entry(
            (j, m[j]),
        )->Ok_0.0 != config::guild_entry((k, m[k]))->Ok_0.0
}

proof fn lemma_listed_table(
    pairs: Seq<(Seq<char>, Seq<char>)>,
    m: Map<Seq<char>, Seq<char>>,
)
    requires
        json::writes_out(pairs, m),
        sound_guild_map(m),
    ensures
        config::guild_table(pairs) is Ok,
        forall|k: Seq<char>| #[trigger]
            m.contains_key(k) ==> config::guild_table(pairs)->Ok_0.contains_key(
                config::guild_entry((k, m[k]))->Ok_0.0,
            ) && config::guild_table(pairs)->Ok_0[config::guild_entry((k, m[k]))->Ok_0.0]
                == config::guild_entry((k, m[k]))->Ok_0.1,
        forall|g: u64| #[trigger]
            config::guild_table(pairs)->Ok_0.contains_key(g) ==> exists|k: Seq<char>| #[trigger]
                m.contains_key(k) && config::guild_entry((k, m[k]))->Ok_0.0 == g,
{
    assert forall|i: int| 0 <= i < pairs.len() implies config::guild_entry(
        #[trigger] pairs[i],
    ) is Ok by {
        assert(m.contains_key(pairs[i].0));
        assert(pairs[i] == (pairs[i].0, m[pairs[i].0]));
    }
    assert forall|i: int, j: int| 0 <= i < j < pairs.len() implies config::guild_entry(
        #[trigger] pairs[i],
    )->Ok_0.0 != config::guild_entry(#[trigger] pairs[j])->Ok_0.0 by {
        assert(m.contains_key(pairs[i].0));
        assert(m.contains_key(pairs[j].0));
        assert(pairs[i] == (pairs[i].0, m[pairs[i].0]));
        assert(pairs[j] == (pairs[j].0, m[pairs[j].0]));
    }
    lemma_guild_table(pairs);
    let table = config::guild_table(pairs)->Ok_0;
    assert forall|k: Seq<char>| #[trigger] m.contains_key(k) implies table.contains_key(
        config::guild_entry((k, m[k]))->Ok_0.0,
    ) && table[config::guild_entry((k, m[k]))->Ok_0.0] == config::guild_entry(
        (k, m[k]),
    )->Ok_0.1 by {
        let i = choose|i: int| 0 <= i < pairs.len() && (#[trigger] pairs[i]).0 == k;
        assert(pairs[i] == (k, m[k]));
    }
    assert forall|g: u64| #[trigger] table.contains_key(g) implies exists|k: Seq<char>| #[trigger]
        m.contains_key(k) && config::guild_entry((k, m[k]))->Ok_0.0 == g by {
        let i = choose|i: int|
            0 <= i < pairs.len() && config::guild_entry(#[trigger] pairs[i])->Ok_0.0 == g;
        assert(m.contains_key(pairs[i].0));
        assert(pairs[i] == (pairs[i].0, m[pairs[i].0]));
    }
}

/// The members of a guild map come in no particular order, and it does not
/// matter: where each names a guild and a repository, and no guild is named
/// twice, every order gives the same table, and every member is in it.
pub proof fn law_guild_map_order_does_not_matter(
    one: Seq<(Seq<char>, Seq<char>)>,
    other: Seq<(Seq<char>, Seq<char>)>,
    m: Map<Seq<char>, Seq<char>>,
)
    requires
        json::writes_out(one, m),
        json::writes_out(other, m),
        sound_guild_map(m),
    ensures
        config::guild_table(one) is Ok,
        config::guild_table(one) == config::guild_table(other),
        forall|k: Seq<char>| #[trigger]
            m.contains_key(k) ==> config::guild_table(one)->Ok_0.contains_pair(
                config::guild_entry((k, m[k]))->Ok_0.0,
                config::guild_entry((k, m[k]))->Ok_0.1,
            ),
{
    lemma_listed_table(one, m);
    lemma_listed_table(other, m);
    let a = config::guild_table(one)->Ok_0;
    let b = config::guild_table(other)->Ok_0;
    assert forall|g: u64| a.contains_key(g) <==> b.contains_key(g) by {
        if a.contains_key(g) {
            let k = choose|k: Seq<char>| #[trigger]
                m.contains_key(k) && config::guild_entry((k, m[k]))->Ok_0.0 == g;
            assert(b.contains_key(config::guild_entry((k, m[k]))->Ok_0.0));
        }
        if b.contains_key(g) {
            let k = choose|k: Seq<char>| #[trigger]
                m.contains_key(k) && config::guild_entry((k, m[k]))->Ok_0.0 == g;
            assert(a.contains_key(config::guild_entry((k, m[k]))->Ok_0.0));
        }
    }
    assert forall|g: u64| a.contains_key(g) implies a[g] == b[g] by {
        let k = choose|k: Seq<char>| #[trigger]
            m.contains_key(k) && config::guild_entry((k, m[k]))->Ok_0.0 == g;
    }
    assert(a =~= b);
}

// ---------------------------------------------------------------------------
// Repositories
// ---------------------------------------------------------------------------
proof fn lemma_pieces_single(s: Seq<char>, sep: char)
    requires
        !s.contains(sep),
    ensures
        text::pieces(s, sep) == seq![s],
    decreases s.len(),
{
    if s.len() > 0 {
        let shorter = s.drop_last();
        assert(!shorter.contains(sep)) by {
            if shorter.contains(sep) {
                let k = choose|k: int| 0 <= k < shorter.len() && shorter[k] == sep;
                assert(s[k] == sep);
            }
        }
        lemma_pieces_single(shorter, sep);
        assert(s[s.len() - 1] != sep);
        assert(shorter.push(s.last()) =~= s);
        assert(text::pieces(s, sep) =~= seq![s]);
    } else {
        assert(s =~= Seq::<char>::empty());
        assert(text::pieces(s, sep) =~= seq![s]);
    }
}

proof fn lemma_pieces_split(a: Seq<char>, sep: char, b: Seq<char>)
    requires
        !a.contains(sep),
        !b.contains(sep),
    ensures
        text::pieces(a.push(sep) + b, sep) == seq![a, b],
    decreases b.len(),
{
    let s = a.push(sep) + b;
    if b.len() == 0 {
        assert(s =~= a.push(sep));
        assert(s.drop_last() =~= a);
        lemma_pieces_single(a, sep);
        assert(b =~= Seq::<char>::empty());
        assert(text::pieces(s, sep) =~= seq![a, b]);
    } else {
        let shorter = b.drop_last();
        assert(!shorter.contains(sep)) by {
            if shorter.contains(sep) {
                let k = choose|k: int| 0 <= k < shorter.len() && shorter[k] == sep;
                assert(b[k] == sep);
            }
        }
        lemma_pieces_split(a, sep, shorter);
        assert(s.drop_last() =~= a.push(sep) + shorter);
        assert(s.last() == b[b.len() - 1]);
        assert(shorter.push(b.last()) =~= b);
        assert(text::pieces(s, sep) =~= seq![a, b]);
    }
}

/// Whether a repository could have been read from a text, and its owner does
/// not begin, nor its name end, in white space.
pub open spec fn tidy_repo(repo: RepoView) -> bool {
    &&& repo.owner.len() > 0
    &&& repo.name.len() > 0
    &&& !repo.owner.contains('/')
    &&& !repo.name.contains('/')
    &&& !text::is_white_space(repo.owner[0])
    &&& !text::is_white_space(repo.name.last())
}

proof fn lemma_slug(repo: RepoView)
    requires
        tidy_repo(repo),
    ensures
        repo.slug() == repo.owner.push('/') + repo.name,
        repo.slug()[0] == repo.owner[0],
        repo.slug().last() == repo.name.last(),
        repo.slug().last() != '/',
        text::pieces(repo.slug(), '/') == seq![repo.owner, repo.name],
        forall|k: int|
            0 <= k < repo.slug().len() && k != repo.owner.len() ==> #[trigger] repo.slug()[k]
                != '/',
{
    reveal_strlit("/");
    let slug = repo.slug();
    assert(slug =~= repo.owner.push('/') + repo.name);
    let n = repo.owner.len() as int;
    assert forall|k: int| 0 <= k < slug.len() && k != n implies #[trigger] slug[k] != '/' by {
        if k < n {
            assert(slug[k] == repo.owner[k]);
            assert(repo.owner.contains(repo.owner[k]));
        } else {
            assert(slug[k] == repo.name[k - n - 1]);
            assert(repo.name.contains(repo.name[k - n - 1]));
        }
    }
    assert(repo.name.contains(repo.name.last()));
    lemma_pieces_split(repo.owner, '/', repo.name);
}

/// Slashes behind a text that does not end in one are stripped.
proof fn lemma_without_trailing(s: Seq<char>, slashes: nat)
    requires
        s.len() > 0,
        s.last() != '/',
    ensures
        text::without_trailing(s + Seq::new(slashes, |i: int| '/'), '/') == s,
    decreases slashes,
{
    let t = s + Seq::new(slashes, |i: int| '/');
    if slashes == 0 {
        assert(t =~= s);
    } else {
        let fewer = s + Seq::new((slashes - 1) as nat, |i: int| '/');
        assert(t.drop_last() =~= fewer);
        assert(t.last() == '/');
        lemma_without_trailing(s, (slashes - 1) as nat);
    }
}

/// White space around a text that neither begins nor ends in any is stripped.
proof fn lemma_trimmed_around(before: Seq<char>, s: Seq<char>, after: Seq<char>)
    requires
        s.len() > 0,
        text::is_blank(before),
        text::is_blank(after),
        !text::is_white_space(s[0]),
        !text::is_white_space(s.last()),
    ensures
        text::trimmed(before + s + after) == s,
{
    let t = before + s + after;
    let (a, b) = text::lemma_trimmed(t);
    let i = before.len() as int;
    let j = i + s.len();
    assert(t[i] == s[0]);
    assert(t[j - 1] == s.last());
    assert forall|k: int| 0 <= k < i implies text::is_white_space(#[trigger] t[k]) by {
        assert(t[k] == before[k]);
    }
    assert forall|k: int| j <= k < t.len() implies text::is_white_space(#[trigger] t[k]) by {
        assert(t[k] == after[k - j]);
    }
    assert(a <= i);
    assert(b >= j);
    if a < i {
        assert(text::trimmed(t)[0] == t[a]);
    }
    if b > j {
        assert(text::trimmed(t).last() == t[b - 1]);
    }
    assert(t.subrange(i, j) =~= s);
}

/// However a repository is written, it reads the same: as `owner/name` or as its
/// address on GitHub, with or without slashes behind it and white space around
/// it.
pub proof fn law_repositories_read_the_same_in_every_form(
    repo: RepoView,
    before: Seq<char>,
    with_address: bool,
    slashes: nat,
    after: Seq<char>,
)
    requires
        tidy_repo(repo),
        text::is_blank(before),
        text::is_blank(after),
    ensures
        ({
            let address = if with_address {
                "https://github.com/"@
            } else {
                Seq::empty()
            };
            let behind = Seq::new(slashes, |i: int| '/');
            config::repo_of(before + (address + repo.slug() + behind) + after) == Ok::<
                RepoView,
                Seq<char>,
            >(repo)
        }),
{
    reveal_strlit("https://github.com/");
    lemma_slug(repo);
    let prefix = "https://github.com/"@;
    let slug = repo.slug();
    let address = if with_address {
        prefix
    } else {
        Seq::<char>::empty()
    };
    let behind = Seq::new(slashes, |i: int| '/');
    let core = address + slug + behind;
    if with_address {
        assert(core[0] == prefix[0]);
    } else {
        assert(core[0] == slug[0]);
    }
    if slashes > 0 {
        assert(core.last() == '/');
    } else {
        assert(core =~= address + slug);
        assert(core.last() == slug.last());
    }
    lemma_trimmed_around(before, core, after);
    lemma_address_comes_off(repo, with_address, slashes);
    lemma_without_trailing(slug, slashes);
    assert(config::repo_path(before + core + after) == slug);
}

/// The address is stripped from before a repository with slashes behind it.
proof fn lemma_address_comes_off(repo: RepoView, with_address: bool, slashes: nat)
    requires
        tidy_repo(repo),
    ensures
        ({
            let prefix = "https://github.com/"@;
            let rest = repo.slug() + Seq::new(slashes, |i: int| '/');
            let address = if with_address {
                prefix
            } else {
                Seq::empty()
            };
            text::without_prefixes(
                address + repo.slug() + Seq::new(slashes, |i: int| '/'),
                prefix,
            ) == rest
        }),
{
    reveal_strlit("https://github.com/");
    lemma_slug(repo);
    let slug = repo.slug();
    let prefix = "https://github.com/"@;
    let rest = slug + Seq::new(slashes, |i: int| '/');
    // The address has two slashes in a row with more behind them; the
    // repository has one slash, and then only slashes at its end.
    if prefix.is_prefix_of(rest) {
        assert(prefix[6] == rest[6]);
        assert(prefix[7] == rest[7]);
        assert(prefix[8] == rest[8]);
        assert(prefix[7] == '/' && prefix[8] == 'g');
        if 8 < slug.len() {
            assert(slug[6] == '/' && slug[7] == '/');
        } else {
            assert(rest[8] == '/');
        }
    }
    assert(text::without_prefixes(rest, prefix) == rest);
    let core = if with_address {
        prefix + slug + Seq::new(slashes, |i: int| '/')
    } else {
        Seq::<char>::empty() + slug + Seq::new(slashes, |i: int| '/')
    };
    if with_address {
        assert(core.take(prefix.len() as int) =~= prefix);
        assert(core.skip(prefix.len() as int) =~= rest);
    } else {
        assert(core =~= rest);
    }
}

/// A repository that was read from a text is written so that it reads the
/// same again, but for an owner that begins, or a name that ends, in white
/// space.
pub proof fn law_repositories_read_as_they_are_written(s: Seq<char>)
    requires
        config::repo_of(s) is Ok,
        !text::is_white_space(config::repo_of(s)->Ok_0.owner[0]),
        !text::is_white_space(config::repo_of(s)->Ok_0.name.last()),
    ensures
        config::repo_of(config::repo_of(s)->Ok_0.slug()) == config::repo_of(s),
{
    let repo = config::repo_of(s)->Ok_0;
    let parts = text::pieces(config::repo_path(s), '/');
    text::lemma_pieces_hold_no_separator(config::repo_path(s), '/');
    assert(!parts[0].contains('/'));
    assert(!parts[1].contains('/'));
    let none = Seq::<char>::empty();
    law_repositories_read_the_same_in_every_form(repo, none, false, 0, none);
    assert(none + (none + repo.slug() + Seq::new(0, |i: int| '/')) + none =~= repo.slug());
}

/// What is read as a repository was written: the text is the owner, a slash and
/// the name, as they are, with nothing around them but white space, the address
/// of GitHub before them and slashes behind them. Neither is empty, and neither
/// holds a slash.
pub proof fn law_repositories_are_read_as_written(s: Seq<char>)
    ensures
        config::repo_of(s) is Ok ==> {
            let repo = config::repo_of(s)->Ok_0;
            &&& repo.owner.len() > 0
            &&& repo.name.len() > 0
            &&& !repo.owner.contains('/')
            &&& !repo.name.contains('/')
            &&& text::occurs(s, repo.owner + seq!['/'] + repo.name)
        },
        !s.contains('/') ==> config::repo_of(s) is Err,
{
    let path = config::repo_path(s);
    let trimmed = text::trimmed(s);
    let (a, b) = text::lemma_trimmed(s);
    let bare = text::without_prefixes(trimmed, "https://github.com/"@);
    lemma_without_prefixes_is_an_end(trimmed, "https://github.com/"@);
    lemma_without_trailing_is_a_beginning(bare, '/');
    let parts = text::pieces(path, '/');
    text::lemma_pieces_hold_no_separator(path, '/');
    law_splitting_loses_nothing(path, '/');
    let from = a + (trimmed.len() - bare.len());
    assert(path =~= s.subrange(from, from + path.len())) by {
        assert forall|k: int| 0 <= k < path.len() implies path[k] == s[from + k] by {
            assert(path[k] == bare[k]);
            assert(bare[k] == trimmed[trimmed.len() - bare.len() + k]);
        }
    }
    if config::repo_of(s) is Ok {
        let repo = config::repo_of(s)->Ok_0;
        assert(parts =~= seq![parts[0], parts[1]]);
        assert(parts.drop_last() =~= seq![parts[0]]);
        assert(text::joined(parts.drop_last(), seq!['/']) == parts[0]);
        assert(text::joined(parts, seq!['/']) == repo.owner + seq!['/'] + repo.name);
        assert(text::occurs_at(s, repo.owner + seq!['/'] + repo.name, from));
    }
    if !s.contains('/') {
        if path.contains('/') {
            let k = choose|k: int| 0 <= k < path.len() && path[k] == '/';
            assert(s[from + k] == '/');
        }
        lemma_pieces_single(path, '/');
    }
}

proof fn lemma_without_prefixes_is_an_end(s: Seq<char>, prefix: Seq<char>)
    ensures
        ({
            let t = text::without_prefixes(s, prefix);
            &&& t.len() <= s.len()
            &&& forall|k: int| 0 <= k < t.len() ==> #[trigger] t[k] == s[s.len() - t.len() + k]
        }),
    decreases s.len(),
{
    if prefix.len() > 0 && prefix.is_prefix_of(s) {
        let rest = s.skip(prefix.len() as int);
        lemma_without_prefixes_is_an_end(rest, prefix);
        let t = text::without_prefixes(s, prefix);
        assert forall|k: int| 0 <= k < t.len() implies #[trigger] t[k] == s[s.len() - t.len()
            + k] by {
            assert(t[k] == rest[rest.len() - t.len() + k]);
        }
    }
}

proof fn lemma_without_trailing_is_a_beginning(s: Seq<char>, c: char)
    ensures
        ({
            let t = text::without_trailing(s, c);
            &&& t.len() <= s.len()
            &&& forall|k: int| 0 <= k < t.len() ==> #[trigger] t[k] == s[k]
            &&& forall|k: int| t.len() <= k < s.len() ==> #[trigger] s[k] == c
            &&& t.len() > 0 ==> t[t.len() - 1] != c
        }),
    decreases s.len(),
{
    if s.len() > 0 && s.last() == c {
        let shorter = s.drop_last();
        lemma_without_trailing_is_a_beginning(shorter, c);
        let t = text::without_trailing(s, c);
        assert forall|k: int| 0 <= k < t.len() implies #[trigger] t[k] == s[k] by {
            assert(t[k] == shorter[k]);
        }
        assert forall|k: int| t.len() <= k < s.len() implies #[trigger] s[k] == c by {
            if k < shorter.len() {
                assert(shorter[k] == c);
            }
        }
    }
}

// ---------------------------------------------------------------------------
// The environment
// ---------------------------------------------------------------------------
/// Whether the variable `key` is set, and the entry at index `i` is what sets it:
/// the first of that name.
pub open spec fn sets(vars: Seq<(Seq<char>, Seq<char>)>, key: Seq<char>, i: int) -> bool {
    &&& 0 <= i < vars.len()
    &&& vars[i].0 == key
    &&& forall|j: int| 0 <= j < i ==> (#[trigger] vars[j]).0 != key
}

proof fn lemma_variable(vars: Seq<(Seq<char>, Seq<char>)>, key: Seq<char>) -> (i: int)
    ensures
        config::variable(vars, key) is Some <==> sets(vars, key, i),
        config::variable(vars, key) is Some ==> config::variable(vars, key)->Some_0 == vars[i].1,
        config::variable(vars, key) is None ==> forall|j: int|
            0 <= j < vars.len() ==> (#[trigger] vars[j]).0 != key,
    decreases vars.len(),
{
    if vars.len() == 0 {
        0
    } else if vars[0].0 == key {
        0
    } else {
        let rest = vars.skip(1);
        let i = lemma_variable(rest, key);
        if config::variable(rest, key) is Some {
            assert(rest[i] == vars[i + 1]);
            assert forall|j: int| 0 <= j < i + 1 implies (#[trigger] vars[j]).0 != key by {
                if j > 0 {
                    assert(rest[j - 1] == vars[j]);
                }
            }
        } else {
            assert forall|j: int| 0 <= j < vars.len() implies (#[trigger] vars[j]).0 != key by {
                if j > 0 {
                    assert(rest[j - 1] == vars[j]);
                }
            }
        }
        i + 1
    }
}

/// A setting is what its variable is set to, without the white space around it;
/// a variable that is not set, or set to nothing but white space, sets nothing.
pub proof fn law_settings_are_what_variables_are_set_to(
    vars: Seq<(Seq<char>, Seq<char>)>,
    key: Seq<char>,
)
    ensures
        match config::setting(vars, key) {
            Some(v) => v.len() > 0 && exists|i: int|
                #[trigger] sets(vars, key, i) && crate::laws::text::trims_to(vars[i].1, v),
            None => forall|i: int| #[trigger]
                sets(vars, key, i) ==> forall|k: int|
                    0 <= k < vars[i].1.len() ==> text::is_white_space(#[trigger] vars[i].1[k]),
        },
{
    let i = lemma_variable(vars, key);
    if config::variable(vars, key) is Some {
        let v = vars[i].1;
        law_trimming_keeps_the_core(v);
        text::lemma_trimmed(v);
        assert forall|j: int| #[trigger] sets(vars, key, j) implies j == i by {
            if j < i {
                assert(vars[j].0 != key);
            } else if j > i {
                assert(vars[i].0 != key);
            }
        }
    }
}

/// Whether `n` is what the setting `key` comes to: the number it is, or `default`
/// where it is not set.
pub open spec fn comes_to(
    vars: Seq<(Seq<char>, Seq<char>)>,
    key: Seq<char>,
    default: nat,
    max: nat,
    n: nat,
) -> bool {
    match config::setting(vars, key) {
        Some(v) => number::number(v, max) == Ok::<nat, NumberError>(n),
        None => n == default,
    }
}

/// Whether the setting `key` is a number, where it is set.
pub open spec fn is_numeric(vars: Seq<(Seq<char>, Seq<char>)>, key: Seq<char>, max: nat) -> bool {
    config::setting(vars, key) is Some ==> number::number(
        config::setting(vars, key)->Some_0,
        max,
    ) is Ok
}

/// Every setting of the bot comes from the variable that is called so, as it is
/// set, and from no other; where one is not set, there is what the bot is known
/// to do without it.
pub proof fn law_every_setting_has_its_variable(
    vars: Seq<(Seq<char>, Seq<char>)>,
    guilds: Result<Map<u64, RepoView>, ConfigErrorView>,
)
    requires
        config::configured(vars, guilds) is Ok,
    ensures
        ({
            let cfg = config::configured(vars, guilds)->Ok_0;
            let most = usize::MAX as nat;
            &&& config::setting(vars, "DISCORD_TOKEN"@) == Some(cfg.discord_token)
            &&& config::setting(vars, "OPENAI_API_KEY"@) == Some(cfg.openai_api_key)
            &&& config::setting(vars, "GITHUB_TOKEN"@) == Some(cfg.github_token)
            &&& cfg.openai_model == match config::setting(vars, "OPENAI_MODEL"@) {
                Some(v) => v,
                None => "gpt-4o-mini"@,
            }
            &&& is_bare(
                match config::setting(vars, "OPENAI_BASE_URL"@) {
                    Some(v) => v,
                    None => "https://api.openai.com/v1"@,
                },
                cfg.openai_base_url,
            )
            &&& match config::setting(vars, "GITHUB_REPO"@) {
                Some(v) => cfg.default_repo is Some && config::repo_of(v) == Ok::<
                    RepoView,
                    Seq<char>,
                >(cfg.default_repo->Some_0),
                None => cfg.default_repo is None,
            }
            &&& guilds == Ok::<Map<u64, RepoView>, ConfigErrorView>(cfg.guild_repos)
            &&& match config::setting(vars, "ALLOWED_ROLE_IDS"@) {
                Some(v) => config::ids(text::pieces(v, ',')) == Ok::<Seq<u64>, ConfigErrorView>(
                    cfg.allowed_role_ids,
                ),
                None => cfg.allowed_role_ids.len() == 0,
            }
            &&& comes_to(vars, "MAX_THREAD_MESSAGES"@, 200, most, cfg.limits.max_messages as nat)
            &&& comes_to(
                vars,
                "MAX_MESSAGE_CHARS"@,
                2_000,
                most,
                cfg.limits.max_message_chars as nat,
            )
            &&& comes_to(vars, "MAX_LLM_CHARS"@, 24_000, most, cfg.limits.max_llm_chars as nat)
            &&& comes_to(vars, "MAX_ATTACHMENTS"@, 20, most, cfg.limits.max_attachments as nat)
            &&& comes_to(
                vars,
                "USER_COOLDOWN_SECS"@,
                20,
                u64::MAX as nat,
                cfg.limits.user_cooldown_secs as nat,
            )
            &&& comes_to(vars, "PORT"@, 8080, u16::MAX as nat, cfg.port as nat)
            &&& exists|n: nat|
                #[trigger] comes_to(vars, "MAX_BODY_CHARS"@, 60_000, most, n)
                    && cfg.limits.max_body_chars == if n < 65_000 {
                    n
                } else {
                    65_000
                }
        }),
{
    let cfg = config::configured(vars, guilds)->Ok_0;
    let most = usize::MAX as nat;
    lemma_count(vars, "MAX_THREAD_MESSAGES"@, most);
    lemma_count(vars, "MAX_MESSAGE_CHARS"@, most);
    lemma_count(vars, "MAX_LLM_CHARS"@, most);
    lemma_count(vars, "MAX_ATTACHMENTS"@, most);
    lemma_count(vars, "MAX_BODY_CHARS"@, most);
    lemma_count(vars, "USER_COOLDOWN_SECS"@, u64::MAX as nat);
    lemma_count(vars, "PORT"@, u16::MAX as nat);
    lemma_without_trailing_is_a_beginning(
        match config::setting(vars, "OPENAI_BASE_URL"@) {
            Some(v) => v,
            None => "https://api.openai.com/v1"@,
        },
        '/',
    );
    let n = config::count_limit(vars, "MAX_BODY_CHARS"@, 60_000)->Ok_0;
    assert(comes_to(vars, "MAX_BODY_CHARS"@, 60_000, most, n));
}

/// Whether `t` is `s` without the slashes it ends with.
pub open spec fn is_bare(s: Seq<char>, t: Seq<char>) -> bool {
    &&& t.len() <= s.len()
    &&& forall|k: int| 0 <= k < t.len() ==> #[trigger] t[k] == s[k]
    &&& forall|k: int| t.len() <= k < s.len() ==> #[trigger] s[k] == '/'
    &&& t.len() > 0 ==> t[t.len() - 1] != '/'
}

proof fn lemma_count(vars: Seq<(Seq<char>, Seq<char>)>, key: Seq<char>, max: nat)
    ensures
        match config::setting(vars, key) {
            Some(v) => number::number(v, max) is Ok ==> number::number(v, max)->Ok_0 <= max,
            None => true,
        },
{
    if config::setting(vars, key) is Some {
        crate::laws::text::law_only_digits_make_a_number(
            config::setting(vars, key)->Some_0,
            max,
            0,
        );
    }
}

/// The bot is set up whenever nothing is wrong with its environment: the three
/// tokens are set, what is to be a number is one, the default repository, the
/// guild map and the role list can be read where they are set, and there is
/// somewhere to file.
pub proof fn law_a_sound_environment_sets_the_bot_up(
    vars: Seq<(Seq<char>, Seq<char>)>,
    guilds: Result<Map<u64, RepoView>, ConfigErrorView>,
)
    ensures
        config::configured(vars, guilds) is Ok <==> {
            let most = usize::MAX as nat;
            let repo = config::setting(vars, "GITHUB_REPO"@);
            let roles = config::setting(vars, "ALLOWED_ROLE_IDS"@);
            &&& config::setting(vars, "DISCORD_TOKEN"@) is Some
            &&& config::setting(vars, "OPENAI_API_KEY"@) is Some
            &&& config::setting(vars, "GITHUB_TOKEN"@) is Some
            &&& repo is Some ==> config::repo_of(repo->Some_0) is Ok
            &&& guilds is Ok
            &&& roles is Some ==> config::ids(text::pieces(roles->Some_0, ',')) is Ok
            &&& is_numeric(vars, "MAX_THREAD_MESSAGES"@, most)
            &&& is_numeric(vars, "MAX_MESSAGE_CHARS"@, most)
            &&& is_numeric(vars, "MAX_LLM_CHARS"@, most)
            &&& is_numeric(vars, "MAX_BODY_CHARS"@, most)
            &&& is_numeric(vars, "MAX_ATTACHMENTS"@, most)
            &&& is_numeric(vars, "USER_COOLDOWN_SECS"@, u64::MAX as nat)
            &&& is_numeric(vars, "PORT"@, u16::MAX as nat)
            &&& repo is Some || exists|g: u64| #[trigger] guilds->Ok_0.contains_key(g)
        },
{
    if guilds is Ok {
        let table = guilds->Ok_0;
        if !table.is_empty() {
            let g = table.dom().choose();
            assert(table.dom().contains(g));
            assert(table.contains_key(g));
        }
        if exists|g: u64| #[trigger] table.contains_key(g) {
            assert(!table.is_empty());
        }
    }
}

/// A list of roles is read from left to right: a part that is a number adds it at
/// the end, a blank part adds nothing, and one that is neither is a fault, as is
/// every list that has one.
pub proof fn law_role_lists_are_read_in_order(parts: Seq<Seq<char>>, part: Seq<char>)
    ensures
        ({
            let before = config::ids(parts);
            let after = config::ids(parts.push(part));
            let blank = forall|k: int|
                0 <= k < part.len() ==> text::is_white_space(#[trigger] part[k]);
            let read = number::number(text::trimmed(part), u64::MAX as nat);
            &&& config::ids(Seq::empty()) == Ok::<Seq<u64>, ConfigErrorView>(Seq::empty())
            &&& before is Err ==> after == before
            &&& before is Ok && blank ==> after == before
            &&& before is Ok && !blank && read is Ok ==> after is Ok && after->Ok_0
                == before->Ok_0.push(read->Ok_0 as u64)
            &&& before is Ok && !blank && read is Err ==> after is Err
        }),
{
    assert(parts.push(part).drop_last() =~= parts);
    text::lemma_trimmed(part);
}

// ---------------------------------------------------------------------------
// Where a server files
// ---------------------------------------------------------------------------
/// A server files into the repository that it is mapped to, and one that is not
/// mapped into the default one, if there is any; what other servers are mapped to
/// makes no difference.
pub proof fn law_servers_file_into_their_own_repository(
    cfg: ConfigView,
    guild: u64,
    other: u64,
    repo: RepoView,
)
    requires
        other != guild,
    ensures
        ({
            let mapped = ConfigView { guild_repos: cfg.guild_repos.insert(guild, repo), ..cfg };
            &&& config::repo_for(mapped, guild) == Some(repo)
            &&& config::repo_for(mapped, other) == config::repo_for(cfg, other)
            &&& !cfg.guild_repos.contains_key(guild) ==> config::repo_for(cfg, guild)
                == cfg.default_repo
        }),
{
}

/// A member of the guild map is a server's id and its repository, each as it
/// reads by itself.
pub proof fn law_guild_maps_name_servers_and_repositories(key: Seq<char>, value: Seq<char>)
    ensures
        ({
            let entry = config::guild_entry((key, value));
            let guild = number::number(key, u64::MAX as nat);
            let repo = config::repo_of(value);
            &&& entry is Ok <==> guild is Ok && repo is Ok
            &&& entry is Ok ==> entry->Ok_0.0 == guild->Ok_0 && entry->Ok_0.1 == repo->Ok_0
        }),
{
    crate::laws::text::law_only_digits_make_a_number(key, u64::MAX as nat, 0);
}

/// A guild map is read in full: where each member names a server and a
/// repository, and no server is named twice, every server is mapped to what its
/// member says, and no other is. Where there is no map, no server is mapped; and
/// what is no map is a fault.
pub proof fn law_guild_maps_are_read_in_full(
    raw: Seq<char>,
    table: Result<Map<u64, RepoView>, ConfigErrorView>,
    guild: u64,
)
    requires
        config::guild_reading(Some(raw), table),
    ensures
        json::string_object(raw) is Err ==> table is Err,
        json::string_object(raw) is Ok && sound_guild_map(json::string_object(raw)->Ok_0) ==> {
            let m = json::string_object(raw)->Ok_0;
            &&& table is Ok
            &&& table->Ok_0.contains_key(guild) <==> exists|k: Seq<char>| #[trigger]
                m.contains_key(k) && config::guild_entry((k, m[k]))->Ok_0.0 == guild
            &&& forall|k: Seq<char>| #[trigger]
                m.contains_key(k) && config::guild_entry((k, m[k]))->Ok_0.0 == guild
                    ==> table->Ok_0[guild] == config::guild_entry((k, m[k]))->Ok_0.1
        },
        forall|none: Result<Map<u64, RepoView>, ConfigErrorView>| #[trigger]
            config::guild_reading(None, none) ==> none == Ok::<
                Map<u64, RepoView>,
                ConfigErrorView,
            >(Map::empty()),
{
    if json::string_object(raw) is Ok && sound_guild_map(json::string_object(raw)->Ok_0) {
        let m = json::string_object(raw)->Ok_0;
        let pairs = choose|pairs: Seq<(Seq<char>, Seq<char>)>| #[trigger]
            json::writes_out(pairs, m) && table == config::guild_table(pairs);
        lemma_listed_table(pairs, m);
    }
}

/// A token that is not set is named, the first of them that is missing.
pub proof fn law_missing_tokens_are_named(
    vars: Seq<(Seq<char>, Seq<char>)>,
    guilds: Result<Map<u64, RepoView>, ConfigErrorView>,
)
    ensures
        ({
            let discord = config::setting(vars, "DISCORD_TOKEN"@) is Some;
            let openai = config::setting(vars, "OPENAI_API_KEY"@) is Some;
            let github = config::setting(vars, "GITHUB_TOKEN"@) is Some;
            let fault = config::configured(vars, guilds);
            &&& !discord ==> fault is Err && fault->Err_0.chain() == seq![
                "DISCORD_TOKEN"@ + " is required but unset"@,
            ]
            &&& discord && !openai ==> fault is Err && fault->Err_0.chain() == seq![
                "OPENAI_API_KEY"@ + " is required but unset"@,
            ]
            &&& discord && openai && !github ==> fault is Err && fault->Err_0.chain() == seq![
                "GITHUB_TOKEN"@ + " is required but unset"@,
            ]
        }),
{
}

/// What is wrong with a setting is told by the setting's name and by what was
/// found in it.
pub proof fn law_faults_are_told_in_words(got: Seq<char>, key: Seq<char>, why: NumberError)
    ensures
        ({
            let complaint = "expected `owner/repo`, got `"@ + got + "`"@;
            &&& ConfigErrorView::DefaultRepo { got }.chain() == seq!["GITHUB_REPO"@, complaint]
            &&& ConfigErrorView::MapRepo { got }.chain() == seq![complaint]
            &&& ConfigErrorView::MapGuild { got, why }.chain() == seq![
                "GITHUB_REPO_MAP key `"@ + got + "` is not a guild id"@,
                why.text(),
            ]
            &&& ConfigErrorView::Role { got, why }.chain() == seq![
                "ALLOWED_ROLE_IDS"@,
                "`"@ + got + "` is not an id"@,
                why.text(),
            ]
            &&& ConfigErrorView::Number { key, why }.chain() == seq![key + ": "@ + why.text()]
        }),
{
}

} // verus!
