//! The environment of a child process: what it inherits from the host, and what overrides that.

use vstd::prelude::*;

verus! {

/// A variable of an environment, with its value.
#[derive(Clone, Debug, PartialEq, Eq)]
pub struct Variable {
    pub name: String,
    pub value: String,
}

/// The variables by their names and values.
pub open spec fn entries(variables: Seq<Variable>) -> Seq<(Seq<char>, Seq<char>)> {
    variables.map_values(|variable: Variable| (variable.name@, variable.value@))
}

/// What an environment comes to in which the entries are set one after the other, a later one in
/// place of an earlier one of its name.
pub open spec fn assigned(entries: Seq<(Seq<char>, Seq<char>)>) -> Map<Seq<char>, Seq<char>>
    decreases entries.len(),
{
    if entries.len() == 0 {
        Map::empty()
    } else {
        assigned(entries.drop_last()).insert(entries.last().0, entries.last().1)
    }
}

/// `c` is `upper`, or the small letter of it.
pub open spec fn is_letter(c: char, upper: char) -> bool {
    c == upper || ('a' <= c <= 'z' && c as int - 32 == upper as int)
}

/// `name` is `upper`, be it in small letters or capitals.
pub open spec fn is_named(name: Seq<char>, upper: Seq<char>) -> bool {
    &&& name.len() == upper.len()
    &&& forall|i: int| 0 <= i < name.len() ==> is_letter(#[trigger] name[i], upper[i])
}

/// The allowlist of variables that a child inherits from the host: where programs and the user's
/// files are, the locale, the proxies, and the terminal. Some platforms and tools write these
/// names in small letters, so the case of letters does not matter.
pub open spec fn is_inherited(name: Seq<char>) -> bool {
    ||| is_named(name, "PATH"@)
    ||| is_named(name, "HOME"@)
    ||| is_named(name, "USERPROFILE"@)
    ||| is_named(name, "LANG"@)
    ||| is_named(name, "LANGUAGE"@)
    ||| name.len() >= 3 && is_named(name.take(3), "LC_"@)
    ||| is_named(name, "HTTP_PROXY"@)
    ||| is_named(name, "HTTPS_PROXY"@)
    ||| is_named(name, "ALL_PROXY"@)
    ||| is_named(name, "NO_PROXY"@)
    ||| is_named(name, "TERM"@)
    ||| is_named(name, "COLORTERM"@)
    ||| is_named(name, "COLUMNS"@)
    ||| is_named(name, "LINES"@)
}

/// The entries whose names are on the allowlist, in their order.
pub open spec fn inherited(entries: Seq<(Seq<char>, Seq<char>)>) -> Seq<(Seq<char>, Seq<char>)>
    decreases entries.len(),
{
    if entries.len() == 0 {
        seq![]
    } else if is_inherited(entries.last().0) {
        inherited(entries.drop_last()).push(entries.last())
    } else {
        inherited(entries.drop_last())
    }
}

/// Tells whether the characters are `upper`, be it in small letters or capitals.
fn same_letters(name: &Vec<char>, upper: &str) -> (r: bool)
    ensures
        r == is_named(name@, upper@),
{
    let capitals = crate::text::char_vec(upper);
    if name.len() != capitals.len() {
        return false;
    }
    let mut i: usize = 0;
    while i < name.len()
        invariant
            i <= name.len() == capitals.len(),
            capitals@ == upper@,
            forall|j: int| 0 <= j < i ==> is_letter(#[trigger] name@[j], upper@[j]),
        decreases name.len() - i,
    {
        let c = name[i];
        let u = capitals[i];
        if c != u && !('a' <= c && c <= 'z' && 'A' <= u && u <= 'Z' && c as u32 - 32
            == u as u32) {
            assert(!is_letter(name@[i as int], upper@[i as int]));
            return false;
        }
        i = i + 1;
    }
    true
}

/// Tells whether a child inherits the variable of this name from the host.
pub fn inherits(name: &str) -> (r: bool)
    ensures
        r == is_inherited(name@),
{
    let chars = crate::text::char_vec(name);
    let names = same_letters(&chars, "PATH") || same_letters(&chars, "HOME") || same_letters(
        &chars,
        "USERPROFILE",
    ) || same_letters(&chars, "LANG") || same_letters(&chars, "LANGUAGE") || same_letters(
        &chars,
        "HTTP_PROXY",
    ) || same_letters(&chars, "HTTPS_PROXY") || same_letters(&chars, "ALL_PROXY") || same_letters(
        &chars,
        "NO_PROXY",
    ) || same_letters(&chars, "TERM") || same_letters(&chars, "COLORTERM") || same_letters(
        &chars,
        "COLUMNS",
    ) || same_letters(&chars, "LINES");
    if names {
        return true;
    }
    if chars.len() < 3 {
        return false;
    }
    let prefix = crate::text::char_vec(name.substring_char(0, 3));
    assert(prefix@ =~= name@.take(3));
    same_letters(&prefix, "LC_")
}

/// The environment that a child is given: what it inherits from the host, and behind it the
/// overrides. It is set in this order in an environment that is cleared before.
pub fn child_environment(host: &Vec<Variable>, overrides: &Vec<Variable>) -> (r: Vec<Variable>)
    ensures
        entries(r@) == inherited(entries(host@)) + entries(overrides@),
{
    let mut r: Vec<Variable> = Vec::new();
    let mut i: usize = 0;
    assert(entries(r@) =~= inherited(entries(host@).take(0)));
    while i < host.len()
        invariant
            i <= host.len(),
            entries(r@) == inherited(entries(host@).take(i as int)),
        decreases host.len() - i,
    {
        let ghost before = r@;
        let ghost done = entries(host@).take(i + 1);
        assert(done.drop_last() =~= entries(host@).take(i as int));
        assert(done.last() == entries(host@)[i as int]);
        if inherits(host[i].name.as_str()) {
            r.push(Variable { name: host[i].name.clone(), value: host[i].value.clone() });
            assert(entries(r@) =~= entries(before).push(done.last()));
        }
        i = i + 1;
    }
    assert(entries(host@).take(i as int) =~= entries(host@));
    let ghost kept = entries(r@);
    let mut j: usize = 0;
    assert(entries(r@) =~= kept + entries(overrides@).take(0));
    while j < overrides.len()
        invariant
            j <= overrides.len(),
            entries(r@) == kept + entries(overrides@).take(j as int),
        decreases overrides.len() - j,
    {
        let ghost before = r@;
        r.push(Variable { name: overrides[j].name.clone(), value: overrides[j].value.clone() });
        assert(entries(r@) =~= entries(before).push(entries(overrides@)[j as int]));
        j = j + 1;
        assert(entries(r@) =~= kept + entries(overrides@).take(j as int));
    }
    assert(entries(overrides@).take(j as int) =~= entries(overrides@));
    r
}

proof fn lemma_assigned_appends(
    first: Seq<(Seq<char>, Seq<char>)>,
    then: Seq<(Seq<char>, Seq<char>)>,
)
    ensures
        assigned(first + then) == assigned(first).union_prefer_right(assigned(then)),
    decreases then.len(),
{
    if then.len() == 0 {
        assert(first + then =~= first);
        assert(assigned(first).union_prefer_right(assigned(then)) =~= assigned(first));
    } else {
        lemma_assigned_appends(first, then.drop_last());
        assert((first + then).drop_last() =~= first + then.drop_last());
        assert(assigned(first + then) =~= assigned(first).union_prefer_right(assigned(then)));
    }
}

proof fn lemma_assigned_inherited(host: Seq<(Seq<char>, Seq<char>)>)
    ensures
        assigned(inherited(host)) == assigned(host).restrict(
            Set::new(|name: Seq<char>| is_inherited(name)),
        ),
    decreases host.len(),
{
    let allowed = Set::new(|name: Seq<char>| is_inherited(name));
    if host.len() > 0 {
        lemma_assigned_inherited(host.drop_last());
        if is_inherited(host.last().0) {
            assert(inherited(host).drop_last() =~= inherited(host.drop_last()));
        }
    }
    assert(assigned(inherited(host)) =~= assigned(host).restrict(allowed));
}

/// A child's environment is the host's, restricted to the allowlist and overridden: an override
/// wins over what is inherited, an allowlisted variable that is not overridden has the value that
/// it has in the host, and no other variable of the host reaches the child.
pub proof fn the_allowlist_is_inherited_and_overridden(
    host: Seq<(Seq<char>, Seq<char>)>,
    overrides: Seq<(Seq<char>, Seq<char>)>,
    name: Seq<char>,
)
    ensures
        assigned(inherited(host) + overrides) == assigned(host).restrict(
            Set::new(|name: Seq<char>| is_inherited(name)),
        ).union_prefer_right(assigned(overrides)),
        ({
            let child = assigned(inherited(host) + overrides);
            if assigned(overrides).contains_key(name) {
                child.contains_key(name) && child[name] == assigned(overrides)[name]
            } else if is_inherited(name) {
                &&& child.contains_key(name) == assigned(host).contains_key(name)
                &&& child.contains_key(name) ==> child[name] == assigned(host)[name]
            } else {
                !child.contains_key(name)
            }
        }),
{
    lemma_assigned_inherited(host);
    lemma_assigned_appends(inherited(host), overrides);
}

/// The entries are the names and values of the variables, one for one.
pub proof fn entries_are_names_and_values(variables: Seq<Variable>)
    ensures
        entries(variables).len() == variables.len(),
        forall|i: int|
            0 <= i < variables.len() ==> #[trigger] entries(variables)[i] == (
                variables[i].name@,
                variables[i].value@,
            ),
{
}

/// Setting nothing leaves nothing set, and setting one more entry sets its name to its value and
/// leaves the others as they are.
pub proof fn the_last_entry_of_a_name_counts(
    variables: Seq<(Seq<char>, Seq<char>)>,
    name: Seq<char>,
    value: Seq<char>,
)
    ensures
        assigned(Seq::<(Seq<char>, Seq<char>)>::empty()) == Map::<Seq<char>, Seq<char>>::empty(),
        assigned(variables.push((name, value))) == assigned(variables).insert(name, value),
{
    assert(variables.push((name, value)).drop_last() =~= variables);
}

/// The small letters as capitals, and all else as it is.
pub open spec fn in_capitals(name: Seq<char>) -> Seq<char> {
    name.map_values(
        |c: char|
            if 'a' <= c <= 'z' {
                (c as int - 'a' as int + 'A' as int) as char
            } else {
                c
            },
    )
}

/// A name is on the allowlist exactly where, in capitals, it is one of these thirteen, or starts
/// with `LC_`.
pub proof fn the_allowlist_holds_these_names(name: Seq<char>)
    ensures
        is_inherited(name) <==> {
            let upper = in_capitals(name);
            ||| upper == "PATH"@
            ||| upper == "HOME"@
            ||| upper == "USERPROFILE"@
            ||| upper == "LANG"@
            ||| upper == "LANGUAGE"@
            ||| upper == "HTTP_PROXY"@
            ||| upper == "HTTPS_PROXY"@
            ||| upper == "ALL_PROXY"@
            ||| upper == "NO_PROXY"@
            ||| upper == "TERM"@
            ||| upper == "COLORTERM"@
            ||| upper == "COLUMNS"@
            ||| upper == "LINES"@
            ||| upper.len() >= 3 && upper.take(3) == "LC_"@
        },
{
    reveal_strlit("PATH");
    reveal_strlit("HOME");
    reveal_strlit("USERPROFILE");
    reveal_strlit("LANG");
    reveal_strlit("LANGUAGE");
    reveal_strlit("LC_");
    reveal_strlit("HTTP_PROXY");
    reveal_strlit("HTTPS_PROXY");
    reveal_strlit("ALL_PROXY");
    reveal_strlit("NO_PROXY");
    reveal_strlit("TERM");
    reveal_strlit("COLORTERM");
    reveal_strlit("COLUMNS");
    reveal_strlit("LINES");
    assert forall|n: Seq<char>, upper: Seq<char>| has_no_small_letter(upper) implies
        #[trigger] is_named(n, upper) == (in_capitals(n) == upper) by {
        lemma_named_in_capitals(n, upper);
    }
    assert(has_no_small_letter("PATH"@));
    assert(has_no_small_letter("HOME"@));
    assert(has_no_small_letter("USERPROFILE"@));
    assert(has_no_small_letter("LANG"@));
    assert(has_no_small_letter("LANGUAGE"@));
    assert(has_no_small_letter("LC_"@));
    assert(has_no_small_letter("HTTP_PROXY"@));
    assert(has_no_small_letter("HTTPS_PROXY"@));
    assert(has_no_small_letter("ALL_PROXY"@));
    assert(has_no_small_letter("NO_PROXY"@));
    assert(has_no_small_letter("TERM"@));
    assert(has_no_small_letter("COLORTERM"@));
    assert(has_no_small_letter("COLUMNS"@));
    assert(has_no_small_letter("LINES"@));
    if name.len() >= 3 {
        assert(in_capitals(name.take(3)) =~= in_capitals(name).take(3));
    }
}

spec fn has_no_small_letter(text: Seq<char>) -> bool {
    forall|i: int| 0 <= i < text.len() ==> !('a' <= #[trigger] text[i] <= 'z')
}

proof fn lemma_named_in_capitals(name: Seq<char>, upper: Seq<char>)
    requires
        has_no_small_letter(upper),
    ensures
        is_named(name, upper) == (in_capitals(name) == upper),
{
    let capitals = in_capitals(name);
    if is_named(name, upper) {
        assert forall|i: int| 0 <= i < name.len() implies capitals[i] == upper[i] by {
            assert(is_letter(name[i], upper[i]));
        }
        assert(capitals =~= upper);
    }
    if capitals == upper {
        assert forall|i: int| 0 <= i < name.len() implies is_letter(#[trigger] name[i], upper[i]) by {
            assert(capitals[i] == upper[i]);
        }
    }
}

/// What is inherited is some of the host's entries, each as it is.
pub proof fn what_is_inherited_is_the_hosts(host: Seq<(Seq<char>, Seq<char>)>)
    ensures
        inherited(host).len() <= host.len(),
        forall|i: int|
            0 <= i < inherited(host).len() ==> is_inherited((#[trigger] inherited(host)[i]).0)
                && host.contains(inherited(host)[i]),
        forall|h: int|
            0 <= h < host.len() && is_inherited((#[trigger] host[h]).0) ==> inherited(
                host,
            ).contains(host[h]),
    decreases host.len(),
{
    if host.len() > 0 {
        let earlier = host.drop_last();
        what_is_inherited_is_the_hosts(earlier);
        let kept = inherited(host);
        let before = inherited(earlier);
        assert forall|i: int| 0 <= i < kept.len() implies is_inherited((#[trigger] kept[i]).0)
            && host.contains(kept[i]) by {
            if i < before.len() {
                assert(kept[i] == before[i]);
                let h = choose|h: int| 0 <= h < earlier.len() && earlier[h] == before[i];
                assert(host[h] == kept[i]);
            } else {
                assert(host[host.len() - 1] == kept[i]);
            }
        }
        assert forall|h: int|
            0 <= h < host.len() && is_inherited((#[trigger] host[h]).0) implies kept.contains(
            host[h],
        ) by {
            if h < earlier.len() {
                assert(earlier[h] == host[h]);
                let i = choose|i: int| 0 <= i < before.len() && before[i] == earlier[h];
                assert(kept[i] == host[h]);
            } else {
                assert(kept[kept.len() - 1] == host[h]);
            }
        }
    }
}

} // verus!
