//! Stream-processing units ("bolts") that each turn one input line into one
//! output line while keeping some state.

use vstd::prelude::*;
use crate::str_map::StrMap;
use crate::text::{decimal, decimal_of, strings};

verus! {

/// A processing unit that consumes one input at a time.
pub trait Bolt {
    /// What the bolt keeps true between inputs; nothing unless a bolt says.
    open spec fn inv(&self) -> bool {
        true
    }

    /// Processes `input` and returns the single line it emits.
    fn execute(&mut self, input: &str) -> (r: Vec<String>)
        requires
            old(self).inv(),
        ensures
            final(self).inv(),
            r@.len() == 1,
    ;
}

/// The words of `s` as `str::split_whitespace` yields them.
pub uninterp spec fn words_of(s: Seq<char>) -> Seq<Seq<char>>;

/// `s` in lower case as `str::to_lowercase` gives it.
pub uninterp spec fn lower_of(s: Seq<char>) -> Seq<char>;

/// `s` without leading and trailing white space, as `str::trim` gives it.
pub uninterp spec fn trim_of(s: Seq<char>) -> Seq<char>;

/// Relies on `str::split_whitespace`: the words of `s`, in order.
#[verifier::external_body]
fn split_words(s: &str) -> (r: Vec<String>)
    ensures
        strings(r@) == words_of(s@),
{
    s.split_whitespace().map(String::from).collect()
}

/// Relies on `str::to_lowercase`: the result depends on the characters alone.
#[verifier::external_body]
pub(crate) fn lowercase(s: &str) -> (r: String)
    ensures
        r@ == lower_of(s@),
{
    s.to_lowercase()
}

/// Relies on `str::trim`: the result depends on the characters alone.
#[verifier::external_body]
fn trimmed(s: &str) -> (r: String)
    ensures
        r@ == trim_of(s@),
{
    s.trim().to_string()
}

/// The parts of `s` between occurrences of `sep`, first to last: one more
/// part than there are separators, empty parts included.
pub open spec fn split_on(s: Seq<char>, sep: char) -> Seq<Seq<char>>
    decreases s.len(),
{
    if s.len() == 0 {
        seq![seq![]]
    } else {
        let rest = split_on(s.drop_last(), sep);
        if s.last() == sep {
            rest.push(seq![])
        } else {
            rest.update(rest.len() - 1, rest.last().push(s.last()))
        }
    }
}

/// Relies on `str::split` with a character pattern: the parts of `s` between
/// occurrences of `sep`.
#[verifier::external_body]
fn split_at_char(s: &str, sep: char) -> (r: Vec<String>)
    ensures
        strings(r@) == split_on(s@, sep),
{
    s.split(sep).map(String::from).collect()
}

/// One more than `n`, staying at the largest value once there.
pub open spec fn inc_saturating(n: usize) -> usize {
    if n == usize::MAX {
        n
    } else {
        (n + 1) as usize
    }
}

/// `counts` after one more occurrence of each word of `words`.
pub open spec fn add_words(counts: Map<Seq<char>, usize>, words: Seq<Seq<char>>) -> Map<
    Seq<char>,
    usize,
>
    decreases words.len(),
{
    if words.len() == 0 {
        counts
    } else {
        let before = add_words(counts, words.drop_last());
        let w = words.last();
        before.insert(
            w,
            if before.contains_key(w) {
                inc_saturating(before[w])
            } else {
                1
            },
        )
    }
}

/// Counts words, case-insensitively.
pub struct WordCountBolt {
    counts: StrMap<usize>,
}

impl View for WordCountBolt {
    type V = Map<Seq<char>, usize>;

    closed spec fn view(&self) -> Map<Seq<char>, usize> {
        self.counts@
    }
}

impl Default for WordCountBolt {
    fn default() -> (r: Self)
        ensures
            r.wf(),
            r@ == Map::<Seq<char>, usize>::empty(),
    {
        Self::new()
    }
}

impl WordCountBolt {
    /// The counts are a well-formed map.
    pub closed spec fn wf(&self) -> bool {
        self.counts.wf()
    }

    /// No word counted yet.
    pub fn new() -> (r: Self)
        ensures
            r.wf(),
            r@ == Map::<Seq<char>, usize>::empty(),
    {
        WordCountBolt { counts: StrMap::new() }
    }

    /// The count of each word seen so far.
    pub fn get_counts(&self) -> (r: &StrMap<usize>)
        requires
            self.wf(),
        ensures
            r.wf(),
            r@ == self@,
    {
        &self.counts
    }

    /// Adds one occurrence of each of `words`, taken as they are.
    pub fn count_words(&mut self, words: &Vec<String>)
        requires
            old(self).wf(),
        ensures
            final(self).wf(),
            final(self)@ == add_words(old(self)@, strings(words@)),
    {
        let mut i: usize = 0;
        while i < words.len()
            invariant
                self.wf(),
                i <= words@.len(),
                self@ == add_words(old(self)@, strings(words@).subrange(0, i as int)),
            decreases words@.len() - i,
        {
            let word = &words[i];
            let current: usize = match self.counts.get(word.as_str()) {
                Some(c) => *c,
                None => 0,
            };
            let next: usize = current.saturating_add(1);
            let _ = self.counts.insert(word.clone(), next);
            proof {
                let ws = strings(words@).subrange(0, i as int + 1);
                assert(ws.drop_last() =~= strings(words@).subrange(0, i as int));
            }
            i = i + 1;
        }
        proof {
            assert(strings(words@).subrange(0, i as int) =~= strings(words@));
        }
    }
}

impl Bolt for WordCountBolt {
    closed spec fn inv(&self) -> bool {
        self.wf()
    }

    /// Counts each white-space-separated word of `input` in lower case.
    fn execute(&mut self, input: &str) -> (r: Vec<String>)
        ensures
            final(self)@ == add_words(
                old(self)@,
                words_of(input@).map_values(|w: Seq<char>| lower_of(w)),
            ),
            strings(r@) == seq!["Processed: "@ + input@],
    {
        let words = split_words(input);
        let mut lowered: Vec<String> = Vec::new();
        let mut i: usize = 0;
        while i < words.len()
            invariant
                i <= words@.len(),
                strings(words@) == words_of(input@),
                lowered@.len() == i,
                strings(lowered@) == words_of(input@).subrange(0, i as int).map_values(
                    |w: Seq<char>| lower_of(w),
                ),
            decreases words@.len() - i,
        {
            let ghost before = lowered@;
            let w = lowercase(words[i].as_str());
            lowered.push(w);
            proof {
                assert(words@[i as int]@ == words_of(input@)[i as int]);
                assert forall|j: int| 0 <= j < i + 1 implies strings(lowered@)[j] == lower_of(
                    words_of(input@)[j],
                ) by {
                    if j < i {
                        assert(lowered@[j] == before[j]);
                        assert(strings(before)[j] == words_of(input@).subrange(0, i as int).map_values(
                            |w: Seq<char>| lower_of(w),
                        )[j]);
                    }
                }
                assert(strings(lowered@) =~= words_of(input@).subrange(0, i as int + 1).map_values(
                    |w: Seq<char>| lower_of(w),
                ));
            }
            i = i + 1;
        }
        proof {
            assert(words_of(input@).subrange(0, i as int) =~= words_of(input@));
        }
        self.count_words(&lowered);
        let mut line = String::from_str("Processed: ");
        line.append(input);
        let r = vec![line];
        proof {
            assert(strings(r@) =~= seq!["Processed: "@ + input@]);
        }
        r
    }
}

/// The items filed under `domain`, none when it is new.
pub open spec fn items_of(m: Map<Seq<char>, Seq<Seq<char>>>, domain: Seq<char>) -> Seq<Seq<char>> {
    if m.contains_key(domain) {
        m[domain]
    } else {
        seq![]
    }
}

/// Files items under named domains.
pub struct PolymathBolt {
    pub domains: StrMap<Vec<String>>,
}

impl View for PolymathBolt {
    type V = Map<Seq<char>, Seq<Seq<char>>>;

    closed spec fn view(&self) -> Map<Seq<char>, Seq<Seq<char>>> {
        self.domains@.map_values(|v: Vec<String>| strings(v@))
    }
}

impl Default for PolymathBolt {
    fn default() -> (r: Self)
        ensures
            r.wf(),
            r@ == Map::<Seq<char>, Seq<Seq<char>>>::empty(),
    {
        Self::new()
    }
}

impl PolymathBolt {
    /// The domains are a well-formed map.
    pub closed spec fn wf(&self) -> bool {
        self.domains.wf()
    }

    /// No domain yet.
    pub fn new() -> (r: Self)
        ensures
            r.wf(),
            r@ == Map::<Seq<char>, Seq<Seq<char>>>::empty(),
    {
        let r = PolymathBolt { domains: StrMap::new() };
        assert(r@ =~= Map::<Seq<char>, Seq<Seq<char>>>::empty());
        r
    }

    /// Sets the items of `domain` to `items`, replacing any it had.
    pub fn add_domain(&mut self, domain: &str, items: Vec<String>)
        requires
            old(self).wf(),
        ensures
            final(self).wf(),
            final(self)@ == old(self)@.insert(domain@, strings(items@)),
    {
        let ghost v = items;
        let _ = self.domains.insert(String::from_str(domain), items);
        assert(self@ =~= old(self)@.insert(domain@, strings(v@)));
    }

    /// Appends `item` to the items of `domain`, opening the domain when it is
    /// new, and returns the acknowledgement line.
    pub fn add_item(&mut self, domain: &str, item: &str) -> (r: String)
        requires
            old(self).wf(),
        ensures
            final(self).wf(),
            final(self)@ == old(self)@.insert(domain@, items_of(old(self)@, domain@).push(item@)),
            r@ == "🌐 Added "@ + item@ + " to "@ + domain@,
    {
        let previous = self.domains.insert(String::from_str(domain), Vec::new());
        let mut items: Vec<String> = match previous {
            Some(v) => v,
            None => Vec::new(),
        };
        items.push(String::from_str(item));
        let ghost filed = items;
        let _ = self.domains.insert(String::from_str(domain), items);
        proof {
            assert(strings(filed@) =~= items_of(old(self)@, domain@).push(item@));
            assert(self@ =~= old(self)@.insert(domain@, items_of(old(self)@, domain@).push(item@)));
        }
        let mut line = String::from_str("🌐 Added ");
        line.append(item);
        line.append(" to ");
        line.append(domain);
        line
    }
}

impl Bolt for PolymathBolt {
    closed spec fn inv(&self) -> bool {
        self.wf()
    }

    /// Reads `domain: item`, trimmed on both sides of the one colon, and files
    /// the item; any other shape is refused.
    fn execute(&mut self, input: &str) -> (r: Vec<String>)
        ensures
            ({
                let parts = split_on(input@, ':');
                if parts.len() == 2 {
                    let domain = trim_of(parts[0]);
                    let item = trim_of(parts[1]);
                    &&& final(self)@ == old(self)@.insert(
                        domain,
                        items_of(old(self)@, domain).push(item),
                    )
                    &&& strings(r@) == seq!["🌐 Added "@ + item + " to "@ + domain]
                } else {
                    &&& final(self)@ == old(self)@
                    &&& strings(r@) == seq!["Invalid format"@]
                }
            }),
    {
        let parts = split_at_char(input, ':');
        if parts.len() == 2 {
            let domain = trimmed(parts[0].as_str());
            let item = trimmed(parts[1].as_str());
            let line = self.add_item(domain.as_str(), item.as_str());
            let r = vec![line];
            proof {
                assert(strings(parts@)[0] == parts@[0]@);
                assert(strings(r@) =~= seq!["🌐 Added "@ + item@ + " to "@ + domain@]);
            }
            r
        } else {
            let r = vec![String::from_str("Invalid format")];
            proof {
                assert(strings(r@) =~= seq!["Invalid format"@]);
            }
            r
        }
    }
}

/// Whether `input` repeats the key the bolt accepted last.
pub open spec fn repeats_last(last_key: Option<String>, input: Seq<char>) -> bool {
    last_key is Some && last_key->Some_0@ == input
}

/// Filters a key that repeats the one just accepted.
pub struct KeyBounceBolt {
    pub last_key: Option<String>,
    pub bounce_count: usize,
}

impl Default for KeyBounceBolt {
    fn default() -> (r: Self)
        ensures
            r.last_key is None,
            r.bounce_count == 0,
    {
        Self::new()
    }
}

impl KeyBounceBolt {
    /// No key seen yet.
    pub fn new() -> (r: Self)
        ensures
            r.last_key is None,
            r.bounce_count == 0,
    {
        KeyBounceBolt { last_key: None, bounce_count: 0 }
    }
}

impl Bolt for KeyBounceBolt {
    /// A repeat of the last accepted key is filtered and counted; any other
    /// key is accepted, becomes the last key, and resets the count.
    fn execute(&mut self, input: &str) -> (r: Vec<String>)
        ensures
            repeats_last(old(self).last_key, input@) ==> {
                &&& final(self).last_key == old(self).last_key
                &&& final(self).bounce_count == inc_saturating(old(self).bounce_count)
                &&& strings(r@) == seq!["Bounce filtered: "@ + input@]
            },
            !repeats_last(old(self).last_key, input@) ==> {
                &&& final(self).last_key is Some
                &&& final(self).last_key->Some_0@ == input@
                &&& final(self).bounce_count == 0
                &&& strings(r@) == seq!["Key accepted: "@ + input@]
            },
    {
        let key = String::from_str(input);
        let repeated = match &self.last_key {
            Some(last) => *last == key,
            None => false,
        };
        if repeated {
            self.bounce_count = self.bounce_count.saturating_add(1);
            let mut line = String::from_str("Bounce filtered: ");
            line.append(input);
            let r = vec![line];
            proof {
                assert(strings(r@) =~= seq!["Bounce filtered: "@ + input@]);
            }
            return r;
        }
        self.last_key = Some(key);
        self.bounce_count = 0;
        let mut line = String::from_str("Key accepted: ");
        line.append(input);
        let r = vec![line];
        proof {
            assert(strings(r@) =~= seq!["Key accepted: "@ + input@]);
        }
        r
    }
}

/// The seed after one step of the linear congruential generator: multiply by
/// 1664525 and add 1013904223, both modulo 2^64.
pub open spec fn next_seed(seed: u64) -> u64 {
    let product = ((seed as nat * 1664525nat) % 0x1_0000_0000_0000_0000nat) as u64;
    ((product as nat + 1013904223nat) % 0x1_0000_0000_0000_0000nat) as u64
}

/// Maps each input to a pseudo-random key out of 88.
pub struct RandomizeKeysBolt {
    seed: u64,
}

impl RandomizeKeysBolt {
    /// The generator's current state.
    pub closed spec fn seed(&self) -> u64 {
        self.seed
    }

    /// A generator started from `seed`.
    pub fn new(seed: u64) -> (r: Self)
        ensures
            r.seed() == seed,
    {
        RandomizeKeysBolt { seed }
    }

    /// Advances the generator and returns its new state.
    fn simple_random(&mut self) -> (r: u64)
        ensures
            final(self).seed() == next_seed(old(self).seed()),
            r == final(self).seed(),
    {
        self.seed = self.seed.wrapping_mul(1664525).wrapping_add(1013904223);
        self.seed
    }
}

impl Bolt for RandomizeKeysBolt {
    /// Advances the generator and reports its new state modulo 88.
    fn execute(&mut self, input: &str) -> (r: Vec<String>)
        ensures
            final(self).seed() == next_seed(old(self).seed()),
            strings(r@) == seq![
                "🎹 "@ + input@ + " -> Random: "@ + decimal_of((next_seed(old(self).seed()) % 88) as nat),
            ],
    {
        let rand = self.simple_random();
        let mut line = String::from_str("🎹 ");
        line.append(input);
        line.append(" -> Random: ");
        let digits = decimal(rand % 88);
        line.append(digits.as_str());
        let r = vec![line];
        proof {
            assert(strings(r@) =~= seq![
                "🎹 "@ + input@ + " -> Random: "@ + decimal_of((rand % 88) as nat),
            ]);
        }
        r
    }
}

} // verus!
