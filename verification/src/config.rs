//! Network config of this build: the constants of its profile, and how they are
//! read. Principals are text there, and parsed when the relay is configured.

pub use crate::baked::{
    ALLOWLIST, BURST_BUDGET_CYCLES, BURST_WINDOW_SECS, CYCLE_FLOOR, DAILY_BUDGET_CYCLES,
    DAILY_WINDOW_SECS, DEAREST_CALL, GAMES, INDEX, INGEST_PRICE, PROFILE, ROOT_PRICE, SIGN_PRICE,
};
use crate::principal::{text_principal, text_to_bytes, Principal};
use crate::principal_set::PrincipalSet;
use vstd::prelude::*;
use vstd::string::StringExecFns;

verus! {

/// Whether `m` is the largest of three amounts.
pub open spec fn is_largest(m: u128, a: u128, b: u128, c: u128) -> bool {
    &&& m >= a && m >= b && m >= c
    &&& m == a || m == b || m == c
}

/// The largest of three amounts.
pub fn max3(a: u128, b: u128, c: u128) -> (r: u128)
    ensures
        is_largest(r, a, b, c),
{
    let ab: u128 = if a > b { a } else { b };
    if ab > c {
        ab
    } else {
        c
    }
}

/// The config is sound. A key can afford the dearest call in a burst and in a
/// day, or that call would be unreachable; a burst allowance is within the day's,
/// or the burst window would be dead weight; and the burst window is the spike
/// guard inside the day.
pub proof fn config_is_sound()
    ensures
        is_largest(DEAREST_CALL, INGEST_PRICE, SIGN_PRICE, ROOT_PRICE),
        BURST_BUDGET_CYCLES >= DEAREST_CALL,
        DAILY_BUDGET_CYCLES >= DEAREST_CALL,
        BURST_BUDGET_CYCLES <= DAILY_BUDGET_CYCLES,
        BURST_WINDOW_SECS < DAILY_WINDOW_SECS,
{
}

/// Whether this build is the frozen-perimeter profile, where a placeholder in the
/// config is an error rather than a value.
pub fn strict() -> (r: bool)
    ensures
        r == (PROFILE@ == "mainnet"@),
{
    let profile: String = PROFILE.to_owned();
    let frozen: String = "mainnet".to_owned();
    profile == frozen
}

/// The texts of a list of strings.
pub open spec fn texts(entries: Seq<&str>) -> Seq<Seq<char>> {
    Seq::new(entries.len(), |i: int| entries[i]@)
}

/// What each entry of a list parses to.
pub open spec fn parses(entries: Seq<&str>) -> Seq<Option<Principal>> {
    Seq::new(entries.len(), |i: int| text_principal(entries[i]@))
}

/// Whether entry `i` is the first one that did not parse.
pub open spec fn is_first_unparsed(parsed: Seq<Option<Principal>>, i: int) -> bool {
    &&& 0 <= i < parsed.len()
    &&& parsed[i] is None
    &&& forall|j: int| 0 <= j < i ==> parsed[j] is Some
}

/// What is said of an entry that is no principal.
pub open spec fn unparsed_message(entry: Seq<char>) -> Seq<char> {
    "baked principal `"@ + entry + "` is not a principal (mainnet requires real ones)"@
}

/// The set that a list of entries denotes, given what each parses to. Where it
/// matters that every entry is real, the first one that is not is the error.
pub open spec fn denoted(
    entries: Seq<Seq<char>>,
    parsed: Seq<Option<Principal>>,
    strict: bool,
) -> Result<Set<Principal>, Seq<char>> {
    if strict && parsed.contains(None) {
        Err(unparsed_message(entries[choose|i: int| is_first_unparsed(parsed, i)]))
    } else {
        Ok(Set::new(|p: Principal| parsed.contains(Some(p))))
    }
}

/// A set of principals or an error message, as values.
pub open spec fn set_or_message(r: Result<PrincipalSet, String>) -> Result<
    Set<Principal>,
    Seq<char>,
> {
    match r {
        Ok(set) => Ok(set@),
        Err(message) => Err(message@),
    }
}

/// The set of the principals in `parsed`, where `parsed` holds what each of the
/// `entries` parsed to.
pub fn collect_set(entries: &[&str], parsed: &[Option<Principal>], strict: bool) -> (r: Result<
    PrincipalSet,
    String,
>)
    requires
        entries@.len() == parsed@.len(),
    ensures
        set_or_message(r) == denoted(texts(entries@), parsed@, strict),
{
    let mut set = PrincipalSet::new();
    let mut i: usize = 0;
    while i < parsed.len()
        invariant
            entries@.len() == parsed@.len(),
            i <= parsed@.len(),
            strict ==> forall|j: int| 0 <= j < i ==> parsed@[j] is Some,
            forall|p: Principal|
                set@.contains(p) <==> exists|j: int| 0 <= j < i && parsed@[j] == Some(p),
        decreases parsed@.len() - i,
    {
        match parsed[i] {
            Some(p) => set.insert(p),
            None => {
                if strict {
                    let mut message: String = "baked principal `".to_owned();
                    message.append(entries[i]);
                    message.append("` is not a principal (mainnet requires real ones)");
                    assert(is_first_unparsed(parsed@, i as int));
                    return Err(message);
                }
            },
        }
        i = i + 1;
    }
    assert(set@ =~= Set::new(|p: Principal| parsed@.contains(Some(p))));
    Ok(set)
}

/// Principal texts, as the runtime set.
///
/// Where `strict` does not hold, an entry that does not parse (a placeholder) is
/// dropped and the set is left short. That is what lets a config be deployed
/// before the real keys exist, and a short set only ever refuses: an empty
/// allowlist lets nobody in, an empty list of games rejects every game call.
///
/// Where `strict` holds the same entry is an error: there a placeholder could not
/// be told from a deliberately emptied list, and the deploy would come up looking
/// healthy and refuse every push. An emptied list stays expressible.
pub fn principal_set(entries: &[&str], strict: bool) -> (r: Result<PrincipalSet, String>)
    ensures
        set_or_message(r) == denoted(texts(entries@), parses(entries@), strict),
{
    let mut parsed: Vec<Option<Principal>> = Vec::new();
    let mut i: usize = 0;
    while i < entries.len()
        invariant
            i <= entries@.len(),
            parsed@.len() == i,
            forall|j: int| 0 <= j < i ==> parsed@[j] == text_principal(entries@[j]@),
        decreases entries@.len() - i,
    {
        parsed.push(Principal::from_text(entries[i]));
        i = i + 1;
    }
    assert(parsed@ =~= parses(entries@));
    collect_set(entries, parsed.as_slice(), strict)
}

/// Off the frozen profile a list always denotes a set: of the entries that parse,
/// no more and no fewer.
pub proof fn placeholders_are_dropped(entries: Seq<Seq<char>>, parsed: Seq<Option<Principal>>, p: Principal)
    ensures
        denoted(entries, parsed, false) matches Ok(set) && (set.contains(p) <==> parsed.contains(
            Some(p),
        )),
{
}

/// On the frozen profile a list denotes a set if and only if every entry parses,
/// and then it is the set that it denotes on any other profile.
pub proof fn frozen_lists_are_filled(entries: Seq<Seq<char>>, parsed: Seq<Option<Principal>>)
    ensures
        denoted(entries, parsed, true) is Ok <==> forall|i: int|
            0 <= i < parsed.len() ==> (#[trigger] parsed[i]) is Some,
        denoted(entries, parsed, true) is Ok ==> denoted(entries, parsed, true) == denoted(
            entries,
            parsed,
            false,
        ),
{
}

/// There is a first entry that did not parse, if any did not.
proof fn lemma_first_unparsed(parsed: Seq<Option<Principal>>, n: int)
    requires
        0 <= n < parsed.len(),
        parsed[n] is None,
    ensures
        exists|i: int| is_first_unparsed(parsed, i),
    decreases n,
{
    if exists|j: int| 0 <= j < n && parsed[j] is None {
        let j = choose|j: int| 0 <= j < n && parsed[j] is None;
        lemma_first_unparsed(parsed, j);
    } else {
        assert(is_first_unparsed(parsed, n));
    }
}

/// The error on the frozen profile names the first entry that does not parse.
pub proof fn the_first_placeholder_is_named(
    entries: Seq<Seq<char>>,
    parsed: Seq<Option<Principal>>,
) -> (i: int)
    requires
        parsed.contains(None),
    ensures
        is_first_unparsed(parsed, i),
        denoted(entries, parsed, true) == Err::<Set<Principal>, Seq<char>>(
            unparsed_message(entries[i]),
        ),
{
    lemma_first_unparsed(parsed, parsed.index_of(None));
    choose|i: int| is_first_unparsed(parsed, i)
}

/// What comes of a list whose entries parsed to `parsed`: the set of the principals
/// among them, all and no others; or, where every entry has to be real, a message
/// that names the first one that is not.
pub proof fn a_list_gives_what_its_entries_parsed_to(
    entries: Seq<&str>,
    parsed: Seq<Option<Principal>>,
    strict: bool,
    r: Result<PrincipalSet, String>,
)
    requires
        entries.len() == parsed.len(),
        set_or_message(r) == denoted(texts(entries), parsed, strict),
    ensures
        r is Ok <==> !strict || forall|i: int|
            0 <= i < parsed.len() ==> (#[trigger] parsed[i]) is Some,
        r matches Ok(set) ==> forall|p: Principal| #[trigger]
            set@.contains(p) <==> exists|i: int| 0 <= i < parsed.len() && parsed[i] == Some(p),
        r matches Err(message) ==> exists|i: int|
            {
                &&& 0 <= i < parsed.len()
                &&& (#[trigger] parsed[i]) is None
                &&& forall|j: int| 0 <= j < i ==> (#[trigger] parsed[j]) is Some
                &&& message@ == "baked principal `"@ + entries[i]@
                    + "` is not a principal (mainnet requires real ones)"@
            },
{
    if strict && parsed.contains(None) {
        let i = the_first_placeholder_is_named(texts(entries), parsed);
        assert(parsed[i] is None);
        assert(texts(entries)[i] == entries[i]@);
    } else if r is Ok {
        let set = r->Ok_0;
        assert forall|p: Principal| #[trigger] set@.contains(p) <==> exists|i: int|
            0 <= i < parsed.len() && parsed[i] == Some(p) by {
            assert(set@.contains(p) <==> parsed.contains(Some(p)));
        }
    }
}

/// A list of texts denotes the set of the principals whose texts are in it, all and
/// no others. An entry counts as a placeholder if and only if it is no text of a
/// principal; where every entry has to be real, the first placeholder is the error.
pub proof fn a_list_denotes_the_principals_in_it(entries: Seq<&str>, strict: bool)
    ensures
        ({
            let d = denoted(texts(entries), parses(entries), strict);
            &&& d is Ok <==> !strict || forall|i: int|
                0 <= i < entries.len() ==> text_to_bytes((#[trigger] entries[i])@) is Some
            &&& d is Ok ==> forall|p: Principal| #[trigger]
                d->Ok_0.contains(p) <==> exists|i: int|
                    {
                        &&& 0 <= i < entries.len()
                        &&& text_to_bytes((#[trigger] entries[i])@) matches Some(bytes)
                        &&& p == Principal::of_bytes(bytes)
                    }
            &&& d is Err ==> exists|i: int|
                {
                    &&& 0 <= i < entries.len()
                    &&& text_to_bytes((#[trigger] entries[i])@) is None
                    &&& forall|j: int|
                        0 <= j < i ==> text_to_bytes((#[trigger] entries[j])@) is Some
                    &&& d->Err_0 == "baked principal `"@ + entries[i]@
                        + "` is not a principal (mainnet requires real ones)"@
                }
        }),
{
    let parsed = parses(entries);
    let d = denoted(texts(entries), parsed, strict);
    assert forall|i: int| 0 <= i < entries.len() implies parsed[i] == text_principal(
        (#[trigger] entries[i])@,
    ) by {}
    if d is Ok {
        assert forall|p: Principal| #[trigger] d->Ok_0.contains(p) <==> exists|i: int|
            {
                &&& 0 <= i < entries.len()
                &&& text_to_bytes((#[trigger] entries[i])@) matches Some(bytes)
                &&& p == Principal::of_bytes(bytes)
            } by {
            if parsed.contains(Some(p)) {
                let i = parsed.index_of(Some(p));
                assert(text_to_bytes(entries[i]@) is Some);
            }
            if exists|i: int|
                {
                    &&& 0 <= i < entries.len()
                    &&& text_to_bytes((#[trigger] entries[i])@) matches Some(bytes)
                    &&& p == Principal::of_bytes(bytes)
                } {
                let i = choose|i: int|
                    {
                        &&& 0 <= i < entries.len()
                        &&& text_to_bytes((#[trigger] entries[i])@) matches Some(bytes)
                        &&& p == Principal::of_bytes(bytes)
                    };
                assert(parsed[i] == Some(p));
            }
        }
        if strict {
            assert forall|i: int| 0 <= i < entries.len() implies text_to_bytes(
                (#[trigger] entries[i])@,
            ) is Some by {
                assert(parsed.contains(parsed[i]));
            }
        }
    } else {
        let i = the_first_placeholder_is_named(texts(entries), parsed);
        assert(text_to_bytes(entries[i]@) is None);
        assert forall|j: int| 0 <= j < i implies text_to_bytes((#[trigger] entries[j])@) is Some by {
            assert(parsed[j] is Some);
        }
    }
}

/// What comes of a list of texts: the set of the principals in it, or the message.
pub proof fn a_list_gives_the_principals_in_it(
    entries: Seq<&str>,
    strict: bool,
    r: Result<PrincipalSet, String>,
)
    requires
        set_or_message(r) == denoted(texts(entries), parses(entries), strict),
    ensures
        r is Ok <==> !strict || forall|i: int|
            0 <= i < entries.len() ==> text_to_bytes((#[trigger] entries[i])@) is Some,
        r matches Ok(set) ==> forall|p: Principal| #[trigger]
            set@.contains(p) <==> exists|i: int|
                {
                    &&& 0 <= i < entries.len()
                    &&& text_to_bytes((#[trigger] entries[i])@) matches Some(bytes)
                    &&& p == Principal::of_bytes(bytes)
                },
        r matches Err(message) ==> exists|i: int|
            {
                &&& 0 <= i < entries.len()
                &&& text_to_bytes((#[trigger] entries[i])@) is None
                &&& forall|j: int|
                    0 <= j < i ==> text_to_bytes((#[trigger] entries[j])@) is Some
                &&& message@ == "baked principal `"@ + entries[i]@
                    + "` is not a principal (mainnet requires real ones)"@
            },
{
    let d = denoted(texts(entries), parses(entries), strict);
    a_list_denotes_the_principals_in_it(entries, strict);
    if r is Ok {
        assert forall|p: Principal| #[trigger] r->Ok_0@.contains(p) <==> exists|i: int|
            {
                &&& 0 <= i < entries.len()
                &&& text_to_bytes((#[trigger] entries[i])@) matches Some(bytes)
                &&& p == Principal::of_bytes(bytes)
            } by {
            assert(d->Ok_0.contains(p) <==> exists|i: int|
                {
                    &&& 0 <= i < entries.len()
                    &&& text_to_bytes((#[trigger] entries[i])@) matches Some(bytes)
                    &&& p == Principal::of_bytes(bytes)
                });
        }
    }
}

/// The largest of three amounts is no less than any of them, and one of them.
pub proof fn the_largest_is_one_of_the_three(m: u128, a: u128, b: u128, c: u128)
    ensures
        is_largest(m, a, b, c) <==> (m >= a && m >= b && m >= c && (m == a || m == b || m == c)),
{
}

/// An emptied list denotes the empty set on every profile.
pub proof fn an_emptied_list_is_legal(entries: Seq<Seq<char>>, strict: bool)
    ensures
        denoted(entries, Seq::empty(), strict) == Ok::<Set<Principal>, Seq<char>>(Set::empty()),
{
    assert(Set::new(|p: Principal| Seq::<Option<Principal>>::empty().contains(Some(p)))
        =~= Set::empty());
}

} // verus!
