//! The worlds on this machine: the list to choose from, and the form for a
//! new one.

use crate::names::{trim, trimmed, valid_world_name, world_name_is_valid};
use crate::nearest::{lemma_stable_sort, sort_by_key, stable_sort};
use crate::protocol::GameMode;
use crate::text::{decimal_of, digit, from_chars};
use vstd::prelude::*;

verus! {

/// One world of the list to choose from.
#[derive(Debug)]
pub struct WorldEntry {
    pub name: String,
    pub game_mode: GameMode,
    /// Seconds since 1970 when the world was last saved, if known.
    pub last_played: Option<u64>,
}

/// What the form for a new world asks for.
#[derive(Debug)]
pub struct NewWorld {
    pub name: String,
    /// `None` for a random seed.
    pub seed: Option<u64>,
    pub game_mode: GameMode,
}

impl WorldEntry {
    /// Where the world stands in the list: the later it was played, the
    /// further up. Worlds of which that is not known come last.
    pub open spec fn rank(self) -> u128 {
        match self.last_played {
            Some(t) => (u64::MAX - t) as u128,
            None => 0x1_0000_0000_0000_0000,
        }
    }

    fn to_rank(&self) -> (r: u128)
        ensures
            r == self.rank(),
    {
        match self.last_played {
            Some(t) => (u64::MAX - t) as u128,
            None => 0x1_0000_0000_0000_0000,
        }
    }
}

/// The worlds' ranks, each with the place of its world.
pub open spec fn ranked(worlds: Seq<WorldEntry>) -> Seq<(u128, usize)> {
    Seq::new(worlds.len(), |i: int| (worlds[i].rank(), i as usize))
}

/// The places of the worlds in the order of the list.
pub open spec fn listed(worlds: Seq<WorldEntry>) -> Seq<usize> {
    stable_sort(ranked(worlds)).map_values(|r: (u128, usize)| r.1)
}

/// The places of the worlds in the order of the list: those played last come
/// first, and among equals the given order stays.
pub fn order_worlds(worlds: &Vec<WorldEntry>) -> (order: Vec<usize>)
    ensures
        order@ == listed(worlds@),
{
    let mut ranks: Vec<(u128, usize)> = Vec::new();
    let mut n: usize = 0;
    while n < worlds.len()
        invariant
            n <= worlds@.len(),
            ranks@ =~= ranked(worlds@).take(n as int),
        decreases worlds@.len() - n,
    {
        ranks.push((worlds[n].to_rank(), n));
        n += 1;
    }
    assert(ranks@ =~= ranked(worlds@));
    sort_by_key(&mut ranks);
    let mut order: Vec<usize> = Vec::new();
    let mut n: usize = 0;
    while n < ranks.len()
        invariant
            n <= ranks@.len(),
            order@ =~= ranks@.take(n as int).map_values(|r: (u128, usize)| r.1),
        decreases ranks@.len() - n,
    {
        order.push(ranks[n].1);
        n += 1;
    }
    assert(ranks@.take(n as int) =~= ranks@);
    order
}

/// The list shows every world once, and none above one that was played later.
pub proof fn law_newest_world_first(worlds: Seq<WorldEntry>)
    requires
        worlds.len() <= usize::MAX,
    ensures
        listed(worlds).len() == worlds.len(),
        listed(worlds).no_duplicates(),
        forall|i: int| 0 <= i < worlds.len() ==> (#[trigger] listed(worlds)[i]) < worlds.len(),
        forall|i: int, j: int|
            0 <= i < j < worlds.len() ==> (#[trigger] worlds[listed(worlds)[i] as int]).rank() <= (
            #[trigger] worlds[listed(worlds)[j] as int]).rank(),
{
    broadcast use vstd::seq_lib::group_to_multiset_ensures;

    let rows = ranked(worlds);
    let s = stable_sort(rows);
    lemma_stable_sort(rows);
    assert forall|i: int| 0 <= i < s.len() implies rows.contains(#[trigger] s[i]) by {
        assert(s.contains(s[i]));
        assert(s.to_multiset().count(s[i]) > 0);
        assert(rows.to_multiset().count(s[i]) > 0);
    }
    assert(rows.no_duplicates());
    rows.lemma_multiset_has_no_duplicates();
    s.lemma_multiset_has_no_duplicates_conv();
    assert(s.no_duplicates());
    assert forall|i: int| 0 <= i < s.len() implies s[i].0 == worlds[(#[trigger] s[i]).1 as int].rank()
        && s[i].1 < worlds.len() by {
        let k = choose|k: int| 0 <= k < rows.len() && rows[k] == s[i];
        assert(rows[k] == (worlds[k].rank(), k as usize));
    }
    assert forall|i: int, j: int| 0 <= i < j < s.len() implies listed(worlds)[i] != listed(
        worlds,
    )[j] by {
        assert(s[i] != s[j]);
    }
}

/// Whether a character is a decimal digit.
pub open spec fn is_digit(c: char) -> bool {
    '0' <= c <= '9'
}

/// The number that a row of decimal digits stands for.
pub open spec fn number_of(digits: Seq<char>) -> int
    decreases digits.len(),
{
    if digits.len() == 0 {
        0
    } else {
        number_of(digits.drop_last()) * 10 + (digits.last() as u32 - '0' as u32)
    }
}

/// Whether a text is a number that a seed can be.
pub open spec fn is_seed(digits: Seq<char>) -> bool {
    &&& digits.len() > 0
    &&& forall|i: int| 0 <= i < digits.len() ==> is_digit(#[trigger] digits[i])
    &&& number_of(digits) <= u64::MAX
}

proof fn lemma_number_grows(digits: Seq<char>, n: int)
    requires
        0 <= n <= digits.len(),
        forall|i: int| 0 <= i < digits.len() ==> is_digit(#[trigger] digits[i]),
    ensures
        0 <= number_of(digits.take(n)) <= number_of(digits),
    decreases digits.len() - n, digits.len(),
{
    let part = digits.take(n);
    if n > 0 {
        assert(part.drop_last() =~= digits.take(n - 1));
        if n < digits.len() {
            let rest = digits.drop_last();
            assert(rest.take(n) =~= part);
            lemma_number_grows(rest, n);
            assert(is_digit(digits[digits.len() - 1]));
        } else {
            assert(part =~= digits);
            lemma_number_nonnegative(digits);
        }
    } else {
        lemma_number_nonnegative(digits);
    }
}

proof fn lemma_number_nonnegative(digits: Seq<char>)
    requires
        forall|i: int| 0 <= i < digits.len() ==> is_digit(#[trigger] digits[i]),
    ensures
        0 <= number_of(digits),
    decreases digits.len(),
{
    if digits.len() > 0 {
        lemma_number_nonnegative(digits.drop_last());
        assert(is_digit(digits[digits.len() - 1]));
    }
}

/// The number that a row of decimal digits stands for, if it is one that a
/// seed can be.
fn parse_seed(digits: &Vec<char>) -> (seed: Option<u64>)
    ensures
        seed is Some <==> is_seed(digits@),
        seed is Some ==> seed->0 == number_of(digits@),
{
    if digits.len() == 0 {
        return None;
    }
    let mut value: u64 = 0;
    let mut n: usize = 0;
    while n < digits.len()
        invariant
            n <= digits@.len(),
            forall|i: int| 0 <= i < n ==> is_digit(#[trigger] digits@[i]),
            value == number_of(digits@.take(n as int)),
        decreases digits@.len() - n,
    {
        let c: char = digits[n];
        if c < '0' || '9' < c {
            assert(!is_digit(digits@[n as int]));
            return None;
        }
        let d: u64 = c as u64 - 48;
        proof {
            let longer = digits@.take(n + 1);
            assert(longer.drop_last() =~= digits@.take(n as int));
            assert(number_of(longer) == value * 10 + d);
            if is_seed(digits@) {
                lemma_number_grows(digits@, n + 1);
            }
        }
        if value > 1_844_674_407_370_955_161 || (value == 1_844_674_407_370_955_161 && d > 5) {
            return None;
        }
        value = value * 10 + d;
        n += 1;
    }
    assert(digits@.take(n as int) =~= digits@);
    Some(value)
}

/// Whether the form for a new world can be sent: the name is valid, and the
/// seed is blank or a number.
pub open spec fn form_is_complete(name: Seq<char>, seed: Seq<char>) -> bool {
    valid_world_name(name) && (trimmed(seed).len() == 0 || is_seed(trimmed(seed)))
}

/// What the form for a new world asks for: nothing while it is not complete.
/// A blank seed leaves the choice to chance; whitespace around the name and
/// the seed is dropped.
pub fn new_world(name: &str, seed: &str, game_mode: GameMode) -> (world: Option<NewWorld>)
    ensures
        world is Some <==> form_is_complete(name@, seed@),
        world matches Some(w) ==> {
            &&& w.name@ == trimmed(name@)
            &&& valid_world_name(w.name@)
            &&& w.game_mode == game_mode
            &&& match w.seed {
                Some(n) => is_seed(trimmed(seed@)) && n == number_of(trimmed(seed@)),
                None => trimmed(seed@).len() == 0,
            }
        },
{
    if !world_name_is_valid(name) {
        return None;
    }
    let digits = trim(seed);
    let number: Option<u64> = if digits.len() == 0 {
        None
    } else {
        match parse_seed(&digits) {
            Some(n) => Some(n),
            None => {
                return None;
            },
        }
    };
    let kept = trim(name);
    let name_kept = from_chars(&kept, 0, kept.len());
    proof {
        assert(name_kept@ =~= trimmed(name@));
        crate::names::law_trimming_settles(name@);
    }
    Some(NewWorld { name: name_kept, seed: number, game_mode })
}

/// Of two worlds in the list, the upper one was played later or at the same
/// time; one of which that is not known stands below all of which it is. Two
/// that were played at the same time, or of neither of which it is known,
/// stand in the order given.
pub proof fn law_the_list_goes_by_the_last_visit(worlds: Seq<WorldEntry>, i: int, j: int)
    requires
        worlds.len() <= usize::MAX,
        0 <= i < j < worlds.len(),
    ensures
        ({
            let upper = worlds[listed(worlds)[i] as int].last_played;
            let lower = worlds[listed(worlds)[j] as int].last_played;
            &&& upper is None ==> lower is None
            &&& upper is Some && lower is Some ==> upper->0 >= lower->0
            &&& upper == lower ==> listed(worlds)[i] < listed(worlds)[j]
        }),
{
    broadcast use vstd::seq_lib::group_to_multiset_ensures;

    law_newest_world_first(worlds);
    let rows = ranked(worlds);
    let s = stable_sort(rows);
    lemma_stable_sort(rows);
    crate::nearest::law_equals_keep_their_order(rows);
    assert forall|n: int| 0 <= n < s.len() implies (#[trigger] s[n]).0
        == worlds[listed(worlds)[n] as int].rank() by {
        assert(s.contains(s[n]));
        assert(s.to_multiset().count(s[n]) > 0);
        assert(rows.to_multiset().count(s[n]) > 0);
        assert(rows.contains(s[n]));
        let k = choose|k: int| 0 <= k < rows.len() && rows[k] == s[n];
        assert(rows[k] == (worlds[k].rank(), k as usize));
    }
    assert(worlds[listed(worlds)[i] as int].rank() <= worlds[listed(worlds)[j] as int].rank());
    assert(s[i].0 == worlds[listed(worlds)[i] as int].rank());
    assert(s[j].0 == worlds[listed(worlds)[j] as int].rank());
    assert(listed(worlds)[i] == s[i].1 && listed(worlds)[j] == s[j].1);
}

/// A seed that is written out as a number is that seed, and is read back as
/// it.
pub proof fn law_written_seeds_are_read_back(seed: u64)
    ensures
        is_seed(decimal_of(seed as int)),
        number_of(decimal_of(seed as int)) == seed,
{
    lemma_digits_are_read_back(seed as int);
}

proof fn lemma_digits_are_read_back(n: int)
    requires
        0 <= n,
    ensures
        decimal_of(n).len() > 0,
        forall|i: int| 0 <= i < decimal_of(n).len() ==> '0' <= (#[trigger] decimal_of(n)[i]) <= '9',
        number_of(decimal_of(n)) == n,
    decreases n,
{
    let s = decimal_of(n);
    if n < 10 {
        assert(s.drop_last() =~= Seq::<char>::empty());
        assert(number_of(s.drop_last()) == 0);
        assert(s.last() == digit(n));
    } else {
        lemma_digits_are_read_back(n / 10);
        assert(s.drop_last() =~= decimal_of(n / 10));
        assert(s.last() == digit(n % 10));
    }
}

/// A row of digits counts by place: a further digit makes the number ten
/// times as large and adds what the digit stands for.
pub proof fn law_digits_count_by_place(digits: Seq<char>, c: char)
    requires
        '0' <= c <= '9',
        forall|i: int| 0 <= i < digits.len() ==> '0' <= (#[trigger] digits[i]) <= '9',
    ensures
        number_of(Seq::empty()) == 0,
        number_of(digits.push(c)) == 10 * number_of(digits) + (c as u32 - 48),
        number_of(digits.push(c)) <= u64::MAX <==> is_seed(digits.push(c)),
{
    assert(digits.push(c).drop_last() =~= digits);
}

} // verus!
