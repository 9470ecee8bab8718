//! The request that starts a session.

use vstd::prelude::*;

use crate::daemon::env_map::EnvMap;
use crate::daemon::handlers::CreateSessionRequest;

verus! {

/// The first place of `c` in `s` from `from` on, or the end.
pub open spec fn find(s: Seq<char>, c: char, from: int) -> int
    decreases s.len() - from,
{
    if from >= s.len() {
        s.len() as int
    } else if s[from] == c {
        from
    } else {
        find(s, c, from + 1)
    }
}

/// The variables that a list of `name=value` texts sets. A text is split at its
/// first equals sign, one without any sets nothing, and of two that set one
/// variable the later counts.
pub open spec fn variables_of(pairs: Seq<String>) -> Map<Seq<char>, Seq<char>>
    decreases pairs.len(),
{
    if pairs.len() == 0 {
        Map::empty()
    } else {
        let before = variables_of(pairs.drop_last());
        let pair = pairs.last()@;
        let k = find(pair, '=', 0);
        if k < pair.len() {
            before.insert(pair.take(k), pair.skip(k + 1))
        } else {
            before
        }
    }
}

/// A name without an equals sign, an equals sign and any value set the name to
/// the value, whatever was set before.
pub proof fn law_pair_sets_its_name(
    pairs: Seq<String>,
    pair: String,
    name: Seq<char>,
    value: Seq<char>,
)
    requires
        pair@ == name + seq!['='] + value,
        !name.contains('='),
    ensures
        variables_of(pairs.push(pair)) == variables_of(pairs).insert(name, value),
{
    let k = name.len() as int;
    assert(pairs.push(pair).drop_last() =~= pairs);
    assert forall|i: int| 0 <= i < k implies pair@[i] != '=' by {
        assert(pair@[i] == name[i]);
    }
    lemma_find(pair@, '=', 0, k);
    assert(pair@.take(k) =~= name);
    assert(pair@.skip(k + 1) =~= value);
}

/// A character that does not come before place `k` and stands there is found
/// there.
proof fn lemma_find(s: Seq<char>, c: char, from: int, k: int)
    requires
        0 <= from <= k < s.len(),
        forall|i: int| from <= i < k ==> s[i] != c,
        s[k] == c,
    ensures
        find(s, c, from) == k,
    decreases k - from,
{
    if from < k {
        lemma_find(s, c, from + 1, k);
    }
}

/// The place of the first equals sign, or the number of characters.
fn find_equals(s: &str, len: usize) -> (r: usize)
    requires
        len == s@.len(),
    ensures
        r == find(s@, '=', 0),
        r <= len,
{
    let mut i: usize = 0;
    while i < len
        invariant
            i <= len,
            len == s@.len(),
            find(s@, '=', 0) == find(s@, '=', i as int),
        decreases len - i,
    {
        if s.get_char(i) == '=' {
            return i;
        }
        i = i + 1;
    }
    i
}

/// The variables that a list of `name=value` texts sets.
pub fn parse_env(pairs: &Vec<String>) -> (r: EnvMap)
    ensures
        r@ == variables_of(pairs@),
{
    let mut env: EnvMap = EnvMap::new();
    let mut i: usize = 0;
    while i < pairs.len()
        invariant
            i <= pairs.len(),
            env@ == variables_of(pairs@.take(i as int)),
        decreases pairs.len() - i,
    {
        assert(pairs@.take(i + 1).drop_last() =~= pairs@.take(i as int));
        let pair: &str = pairs[i].as_str();
        let len: usize = pair.unicode_len();
        let k: usize = find_equals(pair, len);
        if k < len {
            let name: String = pair.substring_char(0, k).to_owned();
            let value: String = pair.substring_char(k + 1, len).to_owned();
            assert(name@ =~= pair@.take(k as int));
            assert(value@ =~= pair@.skip(k + 1));
            env.insert(name, value);
        }
        i = i + 1;
    }
    assert(pairs@.take(i as int) =~= pairs@);
    env
}

/// The request that starts a session for a command, with paths to watch and
/// variables to set: in the directory `cwd`, and in the current one where none
/// is named.
pub fn serve_cmd(
    command: Vec<String>,
    watch: Vec<String>,
    env_pairs: &Vec<String>,
    cwd: Option<String>,
    current_dir: String,
) -> (r: CreateSessionRequest)
    ensures
        r.command == command,
        r.cwd == Some(cwd.unwrap_or(current_dir)),
        r.watch == Some(watch),
        r.env is Some && (r.env->0)@ == variables_of(env_pairs@),
{
    CreateSessionRequest {
        command,
        cwd: Some(
            match cwd {
                Some(cwd) => cwd,
                None => current_dir,
            },
        ),
        watch: Some(watch),
        env: Some(parse_env(env_pairs)),
    }
}

/// The identifier that the daemon gave a new session, or `unknown` where it
/// named none.
pub fn created_id(id: Option<String>) -> (r: String)
    ensures
        r@ == match id {
            Some(id) => id@,
            None => "unknown"@,
        },
{
    match id {
        Some(id) => id,
        None => "unknown".to_owned(),
    }
}

/// A text without an equals sign sets nothing.
pub proof fn law_other_texts_set_nothing(pairs: Seq<String>, pair: String)
    requires
        !pair@.contains('='),
    ensures
        variables_of(pairs.push(pair)) == variables_of(pairs),
        variables_of(Seq::empty()) == Map::<Seq<char>, Seq<char>>::empty(),
{
    assert(pairs.push(pair).drop_last() =~= pairs);
    lemma_not_found(pair@, '=', 0);
}

proof fn lemma_not_found(s: Seq<char>, c: char, from: int)
    requires
        0 <= from,
        !s.contains(c),
    ensures
        find(s, c, from) == s.len(),
    decreases s.len() - from,
{
    if from < s.len() {
        assert(s.contains(s[from]));
        lemma_not_found(s, c, from + 1);
    }
}

} // verus!
