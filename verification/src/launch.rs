//! What the traced program is started with: the environment, the list of
//! libraries to inject, and the checks on the command line.

use vstd::prelude::*;
use crate::bootstrap::LaunchError;

verus! {

/// The views of the strings of `s`.
pub open spec fn views(s: Seq<String>) -> Seq<Seq<char>> {
    Seq::new(s.len(), |i: int| s[i]@)
}

/// The views of the pairs of `s`.
pub open spec fn pairs(s: Seq<(String, String)>) -> Seq<(Seq<char>, Seq<char>)> {
    Seq::new(s.len(), |i: int| (s[i].0@, s[i].1@))
}

/// `key=value`.
pub open spec fn assignment(key: Seq<char>, value: Seq<char>) -> Seq<char> {
    key + seq!['='] + value
}

/// The entry that sets `key` to `value`; a key without a value stands
/// alone.
pub open spec fn override_entry(key: Seq<char>, value: Seq<char>) -> Seq<char> {
    if value.len() == 0 {
        key
    } else {
        assignment(key, value)
    }
}

/// The parts with `sep` between each two.
pub open spec fn join(parts: Seq<Seq<char>>, sep: char) -> Seq<char>
    decreases parts.len(),
{
    if parts.len() == 0 {
        Seq::empty()
    } else if parts.len() == 1 {
        parts[0]
    } else {
        join(parts.drop_last(), sep) + seq![sep] + parts.last()
    }
}

/// The view of a string that may be missing.
pub open spec fn option_view(o: Option<String>) -> Option<Seq<char>> {
    match o {
        Some(s) => Some(s@),
        None => None,
    }
}

/// Whether the entry sets the variable that names the libraries that the
/// dynamic loader loads first.
pub open spec fn is_preload(entry: Seq<char>) -> bool {
    "LD_PRELOAD="@.is_prefix_of(entry)
}

/// What an entry that sets that variable sets it to.
pub open spec fn preload_value(entry: Seq<char>) -> Seq<char> {
    entry.subrange("LD_PRELOAD="@.len() as int, entry.len() as int)
}

/// The entries that the inherited environment and the overrides give:
/// everything inherited, or else the minimal search path alone; then the
/// overrides in their order.
pub open spec fn plain_entries(
    env_all: bool,
    inherited: Seq<(Seq<char>, Seq<char>)>,
    overrides: Seq<(Seq<char>, Seq<char>)>,
) -> Seq<Seq<char>> {
    let base = if env_all {
        Seq::new(inherited.len(), |i: int| assignment(inherited[i].0, inherited[i].1))
    } else {
        seq!["PATH=/bin:/usr/bin"@]
    };
    base + Seq::new(overrides.len(), |i: int| override_entry(overrides[i].0, overrides[i].1))
}

/// The entries in their order, without those that set the preload
/// variable.
pub open spec fn without_preload(entries: Seq<Seq<char>>) -> Seq<Seq<char>>
    decreases entries.len(),
{
    if entries.len() == 0 {
        Seq::empty()
    } else if is_preload(entries.last()) {
        without_preload(entries.drop_last())
    } else {
        without_preload(entries.drop_last()).push(entries.last())
    }
}

/// What the entries set the preload variable to: the value of the last
/// entry that sets it, or nothing where none does.
pub open spec fn earlier_preload(entries: Seq<Seq<char>>) -> Option<Seq<char>>
    decreases entries.len(),
{
    if entries.len() == 0 {
        None
    } else if is_preload(entries.last()) {
        Some(preload_value(entries.last()))
    } else {
        earlier_preload(entries.drop_last())
    }
}

/// The entry that sets the preload variable for the traced program: the
/// injected libraries, appended to what the variable held before.
pub open spec fn merged_preload(earlier: Option<Seq<char>>, injected: Seq<Seq<char>>) -> Seq<char> {
    "LD_PRELOAD="@ + match earlier {
        Some(value) => value + seq![':'] + join(injected, ':'),
        None => join(injected, ':'),
    }
}

/// The environment of the traced program: what the inherited environment
/// and the overrides give, but for the preload variable; last the one
/// entry that sets the preload variable, with the injected libraries
/// appended to what it was set to.
pub open spec fn environment(
    env_all: bool,
    inherited: Seq<(Seq<char>, Seq<char>)>,
    overrides: Seq<(Seq<char>, Seq<char>)>,
    injected: Seq<Seq<char>>,
) -> Seq<Seq<char>> {
    let entries = plain_entries(env_all, inherited, overrides);
    without_preload(entries).push(merged_preload(earlier_preload(entries), injected))
}

/// No entry that is left sets the preload variable, and where none did
/// all entries are left and there is no earlier value.
pub proof fn lemma_without_preload(entries: Seq<Seq<char>>)
    ensures
        forall|i: int|
            0 <= i < without_preload(entries).len() ==> !is_preload(
                #[trigger] without_preload(entries)[i],
            ),
        (forall|i: int| 0 <= i < entries.len() ==> !is_preload(#[trigger] entries[i]))
            ==> without_preload(entries) == entries && earlier_preload(entries) is None,
        earlier_preload(entries) is Some <==> exists|i: int|
            0 <= i < entries.len() && is_preload(#[trigger] entries[i]),
    decreases entries.len(),
{
    if entries.len() > 0 {
        let front = entries.drop_last();
        lemma_without_preload(front);
        let kept = without_preload(entries);
        assert forall|i: int| 0 <= i < kept.len() implies !is_preload(#[trigger] kept[i]) by {
            if i < without_preload(front).len() {
                assert(kept[i] == without_preload(front)[i]);
            } else {
                assert(kept[i] == entries.last());
            }
        }
        if forall|i: int| 0 <= i < entries.len() ==> !is_preload(#[trigger] entries[i]) {
            assert(!is_preload(entries[entries.len() - 1]));
            assert forall|i: int| 0 <= i < front.len() implies !is_preload(
                #[trigger] front[i],
            ) by {
                assert(front[i] == entries[i]);
            }
            assert(without_preload(entries) =~= entries);
        }
        if earlier_preload(entries) is Some {
            if is_preload(entries.last()) {
                assert(is_preload(entries[entries.len() - 1]));
            } else {
                let i = choose|i: int| 0 <= i < front.len() && is_preload(#[trigger] front[i]);
                assert(is_preload(entries[i]));
            }
        }
        if exists|i: int| 0 <= i < entries.len() && is_preload(#[trigger] entries[i]) {
            let i = choose|i: int| 0 <= i < entries.len() && is_preload(#[trigger] entries[i]);
            if !is_preload(entries.last()) {
                assert(i < front.len());
                assert(is_preload(front[i]));
            }
        }
    }
}

/// The environment of the traced program has exactly one entry that sets
/// the preload variable, and it is the last. It holds the injected
/// libraries, appended to what the inherited environment and the overrides
/// set the variable to; where they did not set it, every entry of theirs is
/// kept and the last entry holds the injected libraries alone.
pub proof fn lemma_one_preload_entry(
    env_all: bool,
    inherited: Seq<(Seq<char>, Seq<char>)>,
    overrides: Seq<(Seq<char>, Seq<char>)>,
    injected: Seq<Seq<char>>,
)
    ensures
        ({
            let entries = plain_entries(env_all, inherited, overrides);
            let env = environment(env_all, inherited, overrides, injected);
            &&& env.len() > 0
            &&& is_preload(env.last())
            &&& forall|i: int| 0 <= i < env.len() - 1 ==> !is_preload(#[trigger] env[i])
            &&& earlier_preload(entries) matches Some(value) ==> preload_value(env.last()) == value
                + seq![':'] + join(injected, ':')
            &&& earlier_preload(entries) is None ==> preload_value(env.last()) == join(
                injected,
                ':',
            ) && env == entries.push("LD_PRELOAD="@ + join(injected, ':'))
        }),
{
    let entries = plain_entries(env_all, inherited, overrides);
    let env = environment(env_all, inherited, overrides, injected);
    let kept = without_preload(entries);
    lemma_without_preload(entries);
    let last = merged_preload(earlier_preload(entries), injected);
    let tail = match earlier_preload(entries) {
        Some(value) => value + seq![':'] + join(injected, ':'),
        None => join(injected, ':'),
    };
    assert(last == "LD_PRELOAD="@ + tail);
    assert(last.subrange(0, "LD_PRELOAD="@.len() as int) =~= "LD_PRELOAD="@);
    assert(last.subrange("LD_PRELOAD="@.len() as int, last.len() as int) =~= tail);
    assert(env.last() == last);
    assert forall|i: int| 0 <= i < env.len() - 1 implies !is_preload(#[trigger] env[i]) by {
        assert(env[i] == kept[i]);
    }
    if earlier_preload(entries) is None {
        assert(forall|i: int| 0 <= i < entries.len() ==> !is_preload(#[trigger] entries[i]));
    }
}

/// An entry that assigns a value to the variable `LD_PRELOAD` sets the
/// preload variable to that value, and an entry for a key that does not
/// begin like `LD_PRELOAD=` does not set it.
pub proof fn lemma_preload_assignment(key: Seq<char>, value: Seq<char>)
    ensures
        key == "LD_PRELOAD"@ ==> is_preload(assignment(key, value)) && preload_value(
            assignment(key, value),
        ) == value,
        !key.contains('=') && key != "LD_PRELOAD"@ ==> !is_preload(assignment(key, value)),
{
    reveal_strlit("LD_PRELOAD");
    reveal_strlit("LD_PRELOAD=");
    let prefix = "LD_PRELOAD="@;
    let entry = assignment(key, value);
    assert(prefix =~= "LD_PRELOAD"@ + seq!['=']);
    if key == "LD_PRELOAD"@ {
        assert(entry.subrange(0, prefix.len() as int) =~= prefix);
        assert(entry.subrange(prefix.len() as int, entry.len() as int) =~= value);
    }
    if !key.contains('=') && key != "LD_PRELOAD"@ && is_preload(entry) {
        assert(prefix =~= entry.subrange(0, 11));
        if key.len() >= 11 {
            assert(key[10] == entry[10]);
            assert(entry.subrange(0, 11)[10] == '=');
            assert(key.contains('='));
        } else {
            assert(entry[key.len() as int] == '=');
            assert(entry.subrange(0, 11)[key.len() as int] == '=');
            if key.len() < 10 {
                assert(prefix[key.len() as int] != '=');
            } else {
                assert(key =~= "LD_PRELOAD"@) by {
                    assert forall|i: int| 0 <= i < 10 implies key[i] == "LD_PRELOAD"@[i] by {
                        assert(entry.subrange(0, 11)[i] == key[i]);
                    }
                }
            }
        }
    }
}

/// `key=value` as a string.
fn assign(key: &str, value: &str) -> (entry: String)
    ensures
        entry@ == assignment(key@, value@),
{
    proof {
        reveal_strlit("=");
        assert("="@ =~= seq!['=']);
    }
    let mut entry = String::from_str(key);
    entry.append("=");
    entry.append(value);
    entry
}

/// Whether `s` begins with `prefix`.
fn begins_with(s: &str, prefix: &str) -> (b: bool)
    ensures
        b == prefix@.is_prefix_of(s@),
{
    let n = s.unicode_len();
    let m = prefix.unicode_len();
    if m > n {
        return false;
    }
    let mut i: usize = 0;
    while i < m
        invariant
            n == s@.len(),
            m == prefix@.len(),
            m <= n,
            i <= m,
            forall|j: int| 0 <= j < i ==> s@[j] == prefix@[j],
        decreases m - i,
    {
        if s.get_char(i) != prefix.get_char(i) {
            assert(s@.subrange(0, m as int)[i as int] != prefix@[i as int]);
            return false;
        }
        i += 1;
    }
    assert(prefix@ =~= s@.subrange(0, m as int));
    true
}

/// The entries that the inherited environment and the overrides give.
fn plain_environment(
    env_all: bool,
    inherited: &Vec<(String, String)>,
    overrides: &Vec<(String, String)>,
) -> (env: Vec<String>)
    ensures
        views(env@) == plain_entries(env_all, pairs(inherited@), pairs(overrides@)),
{
    let mut env: Vec<String> = Vec::new();
    let ghost base = if env_all {
        Seq::new(
            inherited@.len(),
            |i: int| assignment(pairs(inherited@)[i].0, pairs(inherited@)[i].1),
        )
    } else {
        seq!["PATH=/bin:/usr/bin"@]
    };
    if env_all {
        let mut i: usize = 0;
        while i < inherited.len()
            invariant
                i <= inherited.len(),
                env@.len() == i,
                forall|k: int|
                    0 <= k < i ==> (#[trigger] env@[k])@ == assignment(
                        inherited@[k].0@,
                        inherited@[k].1@,
                    ),
            decreases inherited.len() - i,
        {
            let pair = &inherited[i];
            env.push(assign(pair.0.as_str(), pair.1.as_str()));
            i += 1;
        }
    } else {
        env.push(String::from_str("PATH=/bin:/usr/bin"));
    }
    assert(views(env@) =~= base);
    let ghost start = env@.len();
    let mut j: usize = 0;
    while j < overrides.len()
        invariant
            j <= overrides.len(),
            env@.len() == start + j,
            start == base.len(),
            forall|k: int| 0 <= k < start ==> (#[trigger] env@[k])@ == base[k],
            forall|k: int|
                0 <= k < j ==> (#[trigger] env@[start + k])@ == override_entry(
                    overrides@[k].0@,
                    overrides@[k].1@,
                ),
        decreases overrides.len() - j,
    {
        let pair = &overrides[j];
        let ghost before = env@;
        if pair.1.as_str().unicode_len() == 0 {
            env.push(String::from_str(pair.0.as_str()));
        } else {
            env.push(assign(pair.0.as_str(), pair.1.as_str()));
        }
        proof {
            assert forall|k: int| 0 <= k < start implies (#[trigger] env@[k])@ == base[k] by {
                assert(env@[k] == before[k]);
            }
            assert forall|k: int| 0 <= k < j + 1 implies (#[trigger] env@[start + k])@
                == override_entry(overrides@[k].0@, overrides@[k].1@) by {
                if k < j {
                    assert(env@[start + k] == before[start + k]);
                }
            }
        }
        j += 1;
    }
    proof {
        let expected = plain_entries(env_all, pairs(inherited@), pairs(overrides@));
        assert(views(env@).len() == expected.len());
        assert forall|k: int| 0 <= k < expected.len() implies views(env@)[k] == expected[k] by {
            if k >= start {
                assert(env@[k] == env@[start + (k - start)]);
            }
        }
        assert(views(env@) =~= expected);
    }
    env
}

/// Builds the environment of the traced program from the inherited
/// environment, the overrides and the full paths of the libraries to
/// inject.
pub fn build_environment(
    env_all: bool,
    inherited: &Vec<(String, String)>,
    overrides: &Vec<(String, String)>,
    injected: &Vec<String>,
) -> (env: Vec<String>)
    ensures
        views(env@) == environment(
            env_all,
            pairs(inherited@),
            pairs(overrides@),
            views(injected@),
        ),
        env@.len() > 0,
        is_preload(env@.last()@),
        forall|i: int| 0 <= i < env@.len() - 1 ==> !is_preload((#[trigger] env@[i])@),
{
    let entries = plain_environment(env_all, inherited, overrides);
    let ghost plain = views(entries@);
    let prefix_len = "LD_PRELOAD=".unicode_len();
    let mut env: Vec<String> = Vec::new();
    let mut earlier: Option<String> = None;
    let mut i: usize = 0;
    assert(plain.take(0) =~= Seq::<Seq<char>>::empty());
    assert(views(env@) =~= without_preload(plain.take(0)));
    while i < entries.len()
        invariant
            i <= entries.len(),
            plain == views(entries@),
            prefix_len == "LD_PRELOAD="@.len(),
            views(env@) == without_preload(plain.take(i as int)),
            option_view(earlier) == earlier_preload(plain.take(i as int)),
        decreases entries.len() - i,
    {
        let entry = entries[i].as_str();
        proof {
            assert(plain.take(i + 1).drop_last() =~= plain.take(i as int));
            assert(plain.take(i + 1).last() == entry@);
        }
        let ghost kept = views(env@);
        if begins_with(entry, "LD_PRELOAD=") {
            let n = entry.unicode_len();
            earlier = Some(String::from_str(entry.substring_char(prefix_len, n)));
        } else {
            env.push(String::from_str(entry));
            assert(views(env@) =~= kept.push(entry@));
        }
        i += 1;
    }
    assert(plain.take(entries@.len() as int) =~= plain);
    let ghost kept = views(env@);
    let last = preload_entry(&earlier, injected);
    env.push(last);
    proof {
        assert(views(env@) =~= kept.push(last@));
        lemma_one_preload_entry(
            env_all,
            pairs(inherited@),
            pairs(overrides@),
            views(injected@),
        );
        assert(views(env@).last() == env@.last()@);
        assert forall|k: int| 0 <= k < env@.len() - 1 implies !is_preload(
            (#[trigger] env@[k])@,
        ) by {
            assert(views(env@)[k] == env@[k]@);
        }
    }
    env
}

/// The entry that sets the preload variable for the traced program: the
/// full paths of the injected libraries with `:` between them, appended
/// with a `:` to what the variable was set to before, if it was set.
pub fn preload_entry(earlier: &Option<String>, injected: &Vec<String>) -> (entry: String)
    ensures
        entry@ == merged_preload(option_view(*earlier), views(injected@)),
{
    proof {
        reveal_strlit(":");
        assert(":"@ =~= seq![':']);
    }
    let mut entry = String::from_str("LD_PRELOAD=");
    match earlier {
        Some(value) => {
            entry.append(value.as_str());
            entry.append(":");
        },
        None => {},
    }
    let ghost head = entry@;
    let ghost paths = views(injected@);
    let mut k: usize = 0;
    assert(join(paths.take(0), ':') =~= Seq::<char>::empty());
    assert(entry@ =~= head + join(paths.take(0), ':'));
    while k < injected.len()
        invariant
            k <= injected.len(),
            paths == views(injected@),
            ":"@ == seq![':'],
            entry@ == head + join(paths.take(k as int), ':'),
        decreases injected.len() - k,
    {
        proof {
            assert(paths.take(k + 1).drop_last() =~= paths.take(k as int));
            assert(paths.take(k + 1).last() == injected@[k as int]@);
            if k > 0 {
                assert(join(paths.take(k + 1), ':') == join(paths.take(k as int), ':') + seq![':']
                    + paths[k as int]);
            } else {
                assert(join(paths.take(0), ':') =~= Seq::<char>::empty());
                assert(join(paths.take(1), ':') == paths[0]);
            }
        }
        if k > 0 {
            entry.append(":");
        }
        entry.append(injected[k].as_str());
        proof {
            if k > 0 {
                assert(entry@ =~= head + (join(paths.take(k as int), ':') + seq![':']
                    + paths[k as int]));
            } else {
                assert(entry@ =~= head + paths[0]);
            }
        }
        k += 1;
    }
    proof {
        assert(paths.take(injected@.len() as int) =~= paths);
        match earlier {
            Some(value) => {
                assert(head =~= "LD_PRELOAD="@ + value@ + seq![':']);
                assert(entry@ =~= "LD_PRELOAD="@ + (value@ + seq![':'] + join(paths, ':')));
            },
            None => {},
        }
    }
    entry
}

/// The paths that were found, where every library was found.
pub open spec fn found_paths(found: Seq<Option<String>>) -> Seq<Seq<char>> {
    Seq::new(found.len(), |i: int| found[i]->0@)
}

/// The names of the libraries to inject, in the order in which they are
/// preloaded: the tool's library, then the library of the tracer itself.
pub fn required_libraries(tool: &str) -> (names: Vec<String>)
    ensures
        views(names@) == seq![tool@, "libsystrace.so"@],
{
    let mut names: Vec<String> = Vec::new();
    names.push(String::from_str(tool));
    names.push(String::from_str("libsystrace.so"));
    assert(views(names@) =~= seq![tool@, "libsystrace.so"@]);
    names
}

/// The full paths of the libraries to inject, from what the search for
/// each of them gave: its full path, or nothing. Where a library is
/// missing there are none, and the error names the first that is missing.
pub fn injected_libraries(found: &Vec<Option<String>>) -> (r: Result<Vec<String>, LaunchError>)
    ensures
        match r {
            Ok(paths) => (forall|i: int| 0 <= i < found@.len() ==> found@[i] is Some) && views(
                paths@,
            ) == found_paths(found@),
            Err(e) => exists|i: int|
                0 <= i < found@.len() && #[trigger] found@[i] is None && e
                    == LaunchError::LibraryNotFound(i as usize) && forall|j: int|
                    0 <= j < i ==> found@[j] is Some,
        },
{
    let mut paths: Vec<String> = Vec::new();
    let mut i: usize = 0;
    while i < found.len()
        invariant
            i <= found.len(),
            paths@.len() == i,
            forall|j: int| 0 <= j < i ==> found@[j] is Some,
            forall|j: int| 0 <= j < i ==> (#[trigger] paths@[j])@ == found@[j]->0@,
        decreases found.len() - i,
    {
        let ghost before = paths@;
        match &found[i] {
            Some(path) => {
                paths.push(String::from_str(path.as_str()));
            },
            None => {
                assert(found@[i as int] is None);
                return Err(LaunchError::LibraryNotFound(i));
            },
        }
        assert forall|j: int| 0 <= j < i + 1 implies (#[trigger] paths@[j])@ == found@[j]->0@ by {
            if j < i {
                assert(paths@[j] == before[j]);
            }
        }
        i += 1;
    }
    assert(views(paths@) =~= found_paths(found@));
    Ok(paths)
}

/// The words that the traced program is started with: its name, then its
/// arguments in their order.
pub fn command_line(program: &str, args: &Vec<String>) -> (argv: Vec<String>)
    ensures
        views(argv@) == seq![program@] + views(args@),
{
    let mut argv: Vec<String> = Vec::new();
    argv.push(String::from_str(program));
    let mut i: usize = 0;
    while i < args.len()
        invariant
            i <= args.len(),
            argv@.len() == i + 1,
            argv@[0]@ == program@,
            forall|k: int| 1 <= k <= i ==> (#[trigger] argv@[k])@ == args@[k - 1]@,
        decreases args.len() - i,
    {
        let ghost before = argv@;
        argv.push(String::from_str(args[i].as_str()));
        assert forall|k: int| 1 <= k <= i + 1 implies (#[trigger] argv@[k])@ == args@[k - 1]@ by {
            if k <= i {
                assert(argv@[k] == before[k]);
            }
        }
        i += 1;
    }
    proof {
        let expected = seq![program@] + views(args@);
        assert(views(argv@).len() == expected.len());
        assert forall|k: int| 0 <= k < expected.len() implies views(argv@)[k] == expected[k] by {
            if k > 0 {
                assert(argv@[k]@ == args@[k - 1]@);
            }
        }
        assert(views(argv@) =~= expected);
    }
    argv
}

/// Whether the string holds a NUL character, which no argument of a
/// program can hold.
pub fn contains_nul(s: &str) -> (b: bool)
    ensures
        b == s@.contains('\0'),
{
    let n = s.unicode_len();
    let mut i: usize = 0;
    while i < n
        invariant
            n == s@.len(),
            i <= n,
            forall|j: int| 0 <= j < i ==> s@[j] != '\0',
        decreases n - i,
    {
        if s.get_char(i) == '\0' {
            return true;
        }
        i += 1;
    }
    false
}

/// Checks that the program name and its arguments can be handed to the
/// kernel. The error names the first that cannot: 0 for the program name,
/// or the place of the argument, counted from 1.
pub fn check_command(program: &str, args: &Vec<String>) -> (r: Result<(), LaunchError>)
    ensures
        match r {
            Ok(()) => !program@.contains('\0') && forall|i: int|
                0 <= i < args@.len() ==> !(#[trigger] args@[i])@.contains('\0'),
            Err(e) => {
                ||| e == LaunchError::NulInArgument(0) && program@.contains('\0')
                ||| !program@.contains('\0') && exists|i: int|
                    0 <= i < args@.len() && (#[trigger] args@[i])@.contains('\0') && e
                        == LaunchError::NulInArgument((i + 1) as usize) && forall|j: int|
                        0 <= j < i ==> !(#[trigger] args@[j])@.contains('\0')
            },
        },
{
    if contains_nul(program) {
        return Err(LaunchError::NulInArgument(0));
    }
    let mut i: usize = 0;
    while i < args.len()
        invariant
            i <= args.len(),
            !program@.contains('\0'),
            forall|j: int| 0 <= j < i ==> !(#[trigger] args@[j])@.contains('\0'),
        decreases args.len() - i,
    {
        if contains_nul(args[i].as_str()) {
            assert(args@[i as int]@.contains('\0'));
            return Err(LaunchError::NulInArgument(i + 1));
        }
        i += 1;
    }
    Ok(())
}

/// Splits an override of the form `key=value` at its first `=`. An
/// override without `=` is a key with an empty value.
pub fn parse_env_override(s: &str) -> (r: (String, String))
    ensures
        (r.0@, r.1@) == split_override(s@),
        !r.0@.contains('='),
        s@.contains('=') ==> s@ == assignment(r.0@, r.1@),
        !s@.contains('=') ==> r.0@ == s@ && r.1@.len() == 0,
{
    let n = s.unicode_len();
    let mut i: usize = 0;
    while i < n
        invariant
            n == s@.len(),
            i <= n,
            forall|j: int| 0 <= j < i ==> s@[j] != '=',
        decreases n - i,
    {
        if s.get_char(i) == '=' {
            let key = String::from_str(s.substring_char(0, i));
            let value = String::from_str(s.substring_char(i + 1, n));
            proof {
                assert(s@ =~= assignment(key@, value@));
                assert(!key@.contains('=')) by {
                    if key@.contains('=') {
                        let j = choose|j: int| 0 <= j < key@.len() && key@[j] == '=';
                        assert(s@[j] == '=');
                    }
                }
                assert(s@.contains('=')) by {
                    assert(s@[i as int] == '=');
                }
                lemma_split_is_unique(s@, key@, value@);
            }
            return (key, value);
        }
        i += 1;
    }
    let key = String::from_str(s);
    let value = String::new();
    proof {
        assert(!s@.contains('=')) by {
            if s@.contains('=') {
                let j = choose|j: int| 0 <= j < s@.len() && s@[j] == '=';
                assert(s@[j] != '=');
            }
        }
        lemma_split_is_unique(s@, key@, value@);
    }
    (key, value)
}

/// Whether some pair of `m` has the key.
pub open spec fn has_key(m: Seq<(Seq<char>, Seq<char>)>, key: Seq<char>) -> bool {
    exists|i: int| 0 <= i < m.len() && (#[trigger] m[i]).0 == key
}

/// The place of the first pair of `m` with the key.
pub open spec fn key_place(m: Seq<(Seq<char>, Seq<char>)>, key: Seq<char>) -> int {
    choose|i: int|
        0 <= i < m.len() && (#[trigger] m[i]).0 == key && forall|j: int|
            0 <= j < i ==> (#[trigger] m[j]).0 != key
}

/// The pairs after `key` was set to `value`: the pair with the key takes
/// the value and keeps its place, or else a new pair joins at the end.
pub open spec fn with_override(
    m: Seq<(Seq<char>, Seq<char>)>,
    key: Seq<char>,
    value: Seq<char>,
) -> Seq<(Seq<char>, Seq<char>)> {
    if has_key(m, key) {
        m.update(key_place(m, key), (key, value))
    } else {
        m.push((key, value))
    }
}

/// The overrides that a list of `key=value` texts asks for: for each key
/// the value that was given last, the keys in the order in which they first
/// came.
pub open spec fn merged_overrides(texts: Seq<Seq<char>>) -> Seq<(Seq<char>, Seq<char>)>
    decreases texts.len(),
{
    if texts.len() == 0 {
        Seq::empty()
    } else {
        let (key, value) = split_override(texts.last());
        with_override(merged_overrides(texts.drop_last()), key, value)
    }
}

/// The place of the first `=` in the text.
pub open spec fn first_equals(text: Seq<char>) -> int {
    choose|i: int|
        0 <= i < text.len() && text[i] == '=' && forall|j: int| 0 <= j < i ==> text[j] != '='
}

/// The key and the value of one override: what stands before its first
/// `=` and what stands behind it; the whole text and nothing where it has
/// no `=`.
pub open spec fn split_override(text: Seq<char>) -> (Seq<char>, Seq<char>) {
    if text.contains('=') {
        let at = first_equals(text);
        (text.subrange(0, at), text.subrange(at + 1, text.len() as int))
    } else {
        (text, Seq::empty())
    }
}

/// Every key of the merged overrides occurs once.
pub proof fn lemma_merged_keys_distinct(texts: Seq<Seq<char>>)
    ensures
        forall|i: int, j: int|
            0 <= i < j < merged_overrides(texts).len() ==> (#[trigger] merged_overrides(
                texts,
            )[i]).0 != (#[trigger] merged_overrides(texts)[j]).0,
    decreases texts.len(),
{
    if texts.len() > 0 {
        lemma_merged_keys_distinct(texts.drop_last());
        let before = merged_overrides(texts.drop_last());
        let (key, value) = split_override(texts.last());
        let after = with_override(before, key, value);
        assert forall|i: int, j: int| 0 <= i < j < after.len() implies (#[trigger] after[i]).0 != (
        #[trigger] after[j]).0 by {
            if has_key(before, key) {
                let at = key_place(before, key);
                assert(before[at].0 == key);
                assert(after[i].0 == before[i].0);
                assert(after[j].0 == before[j].0);
            } else {
                if j < before.len() {
                    assert(after[i] == before[i] && after[j] == before[j]);
                } else {
                    assert(after[i] == before[i]);
                    assert(before[i].0 != key);
                }
            }
        }
    }
}

/// The place of the first pair with the key.
fn find_key(overrides: &Vec<(String, String)>, key: &String) -> (r: Option<usize>)
    ensures
        match r {
            Some(at) => at < overrides@.len() && overrides@[at as int].0@ == key@ && forall|j: int|
                0 <= j < at ==> (#[trigger] pairs(overrides@)[j]).0 != key@,
            None => !has_key(pairs(overrides@), key@),
        },
{
    let mut i: usize = 0;
    while i < overrides.len()
        invariant
            i <= overrides.len(),
            forall|j: int| 0 <= j < i ==> (#[trigger] pairs(overrides@)[j]).0 != key@,
        decreases overrides.len() - i,
    {
        if overrides[i].0.eq(key) {
            return Some(i);
        }
        i += 1;
    }
    None
}

/// The overrides that the `key=value` texts of the command line ask for.
pub fn env_overrides(texts: &Vec<String>) -> (overrides: Vec<(String, String)>)
    ensures
        pairs(overrides@) == merged_overrides(views(texts@)),
{
    let mut overrides: Vec<(String, String)> = Vec::new();
    let mut n: usize = 0;
    assert(views(texts@).take(0) =~= Seq::<Seq<char>>::empty());
    assert(pairs(overrides@) =~= merged_overrides(views(texts@).take(0)));
    while n < texts.len()
        invariant
            n <= texts.len(),
            pairs(overrides@) == merged_overrides(views(texts@).take(n as int)),
        decreases texts.len() - n,
    {
        let ghost sofar = pairs(overrides@);
        let (key, value) = parse_env_override(texts[n].as_str());
        proof {
            let text = texts@[n as int]@;
            assert(views(texts@).take(n + 1).drop_last() =~= views(texts@).take(n as int));
            assert(views(texts@).take(n + 1).last() == text);
        }
        let at = find_key(&overrides, &key);
        let ghost key_view = key@;
        let ghost value_view = value@;
        match at {
            Some(place) => {
                proof {
                    assert(sofar[place as int].0 == key_view);
                    assert(has_key(sofar, key_view));
                    let chosen = key_place(sofar, key_view);
                    if chosen < place {
                        assert(sofar[chosen].0 != key_view);
                    }
                    if place < chosen {
                        assert(sofar[place as int].0 != key_view);
                    }
                }
                overrides.set(place, (key, value));
                assert(pairs(overrides@) =~= sofar.update(place as int, (key_view, value_view)));
            },
            None => {
                proof {
                    assert(!has_key(sofar, key_view));
                }
                overrides.push((key, value));
                assert(pairs(overrides@) =~= sofar.push((key_view, value_view)));
            },
        }
        n += 1;
    }
    assert(views(texts@).take(texts@.len() as int) =~= views(texts@));
    overrides
}

/// A text has one split at its first `=`.
pub proof fn lemma_split_is_unique(text: Seq<char>, key: Seq<char>, value: Seq<char>)
    requires
        !key.contains('='),
        text.contains('=') ==> text == assignment(key, value),
        !text.contains('=') ==> key == text && value.len() == 0,
    ensures
        split_override(text) == (key, value),
{
    if text.contains('=') {
        let k = key.len() as int;
        assert(text[k] == '=');
        assert forall|j: int| 0 <= j < k implies text[j] != '=' by {
            assert(text[j] == key[j]);
            if key[j] == '=' {
                assert(key.contains('='));
            }
        }
        let at = first_equals(text);
        assert(0 <= at < text.len() && text[at] == '=' && forall|j: int|
            0 <= j < at ==> text[j] != '=');
        assert(at == k);
        assert(text.subrange(0, at) =~= key);
        assert(text.subrange(at + 1, text.len() as int) =~= value);
    } else {
        assert(value =~= Seq::<char>::empty());
    }
}

/// How much the tracer logs.
#[derive(Clone, Copy, Debug, PartialEq, Eq)]
pub enum LogLevel {
    Off,
    Error,
    Warn,
    Info,
    Debug,
    Trace,
}

/// The log level that a debug level asks for: 0 switches logging off, 1 to
/// 4 ask for more and more, and every other number asks for everything.
pub open spec fn level_of(level: i32) -> LogLevel {
    if level == 0 {
        LogLevel::Off
    } else if level == 1 {
        LogLevel::Error
    } else if level == 2 {
        LogLevel::Warn
    } else if level == 3 {
        LogLevel::Info
    } else if level == 4 {
        LogLevel::Debug
    } else {
        LogLevel::Trace
    }
}

/// The log level that a debug level asks for.
pub fn log_level(level: i32) -> (l: LogLevel)
    ensures
        l == level_of(level),
{
    match level {
        0 => LogLevel::Off,
        1 => LogLevel::Error,
        2 => LogLevel::Warn,
        3 => LogLevel::Info,
        4 => LogLevel::Debug,
        _ => LogLevel::Trace,
    }
}

} // verus!
