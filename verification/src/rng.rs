use vstd::prelude::*;

verus! {

/// A table entry of the mock decision source: a (year, index, usage) key
/// and the value it yields.
pub type MockEntry = ((u32, usize, u32), u64);

/// The value of the first entry whose key matches, or the default.
pub open spec fn spec_mock_lookup(
    values: Seq<MockEntry>,
    key: (u32, usize, u32),
    default: u64,
) -> u64
    decreases values.len(),
{
    if values.len() == 0 {
        default
    } else if values[0].0 == key {
        values[0].1
    } else {
        spec_mock_lookup(values.drop_first(), key, default)
    }
}

/// The fixed integer-mixing function of the hash-based decision source:
/// fold each component of the triple in with an exclusive-or followed by a
/// multiplication by an odd constant, wrapping at sixty-four bits.
pub open spec fn spec_mix(year: u32, index: usize, usage: u32) -> u64 {
    let h0 = 0x9E3779B97F4A7C15u64;
    let h1 = vstd::wrapping::u64_specs::wrapping_mul(h0 ^ (year as u64), 0xBF58476D1CE4E5B9u64);
    let h2 = vstd::wrapping::u64_specs::wrapping_mul(h1 ^ (index as u64), 0x94D049BB133111EBu64);
    vstd::wrapping::u64_specs::wrapping_mul(h2 ^ (usage as u64), 0xD6E8FEB86659FD93u64)
}

/// The raw value a decision source yields for a (year, index, usage) triple:
/// a pure function of the source and the triple, so that identical rolls
/// are reproducible across runs without any stored state.
pub open spec fn spec_next(rng: RandomNumberGenerator, year: u32, index: usize, usage: u32) -> u64 {
    match rng {
        RandomNumberGenerator::Hash => spec_mix(year, index, usage),
        RandomNumberGenerator::Mock { values, default } => spec_mock_lookup(
            values@,
            (year, index, usage),
            default,
        ),
    }
}

/// The deterministic decision source: either a stateless integer-mixing
/// function, or an explicit table with a default, for tests.
#[derive(Clone, Debug, PartialEq)]
pub enum RandomNumberGenerator {
    Hash,
    Mock { values: Vec<MockEntry>, default: u64 },
}

impl RandomNumberGenerator {
    /// A reproducible roll in [0, 100).
    pub fn roll_d100(&self, year: u32, index: usize, usage: u32) -> (r: u32)
        ensures
            r == spec_next(*self, year, index, usage) % 100,
            r < 100,
    {
        (self.next(year, index, usage) % 100) as u32
    }

    fn next(&self, year: u32, index: usize, usage: u32) -> (r: u64)
        ensures
            r == spec_next(*self, year, index, usage),
    {
        match self {
            RandomNumberGenerator::Hash => {
                let h0: u64 = 0x9E3779B97F4A7C15;
                let h1 = (h0 ^ (year as u64)).wrapping_mul(0xBF58476D1CE4E5B9);
                let h2 = (h1 ^ (index as u64)).wrapping_mul(0x94D049BB133111EB);
                (h2 ^ (usage as u64)).wrapping_mul(0xD6E8FEB86659FD93)
            },
            RandomNumberGenerator::Mock { values, default } => {
                let n = values.len();
                let mut i: usize = 0;
                proof {
                    assert(values@.skip(0) =~= values@);
                    assert(spec_next(*self, year, index, usage) == spec_mock_lookup(
                        values@,
                        (year, index, usage),
                        *default,
                    ));
                }
                while i < n
                    invariant
                        i <= n,
                        n == values@.len(),
                        spec_next(*self, year, index, usage) == spec_mock_lookup(
                            values@.skip(i as int),
                            (year, index, usage),
                            *default,
                        ),
                    decreases n - i,
                {
                    let entry = values[i];
                    if entry.0.0 == year && entry.0.1 == index && entry.0.2 == usage {
                        proof {
                            assert(values@.skip(i as int)[0] == entry);
                            assert(entry.0 == (year, index, usage));
                            assert(spec_mock_lookup(
                                values@.skip(i as int),
                                (year, index, usage),
                                *default,
                            ) == entry.1);
                        }
                        return entry.1;
                    }
                    proof {
                        assert(values@.skip(i as int).drop_first() =~= values@.skip(i + 1));
                    }
                    i = i + 1;
                }
                proof {
                    assert(values@.skip(n as int).len() == 0);
                    assert(spec_mock_lookup(
                        values@.skip(n as int),
                        (year, index, usage),
                        *default,
                    ) == *default);
                }
                *default
            },
        }
    }
}

/// The decision source is deterministic: two rolls with identical
/// arguments yield identical results.
pub proof fn lemma_roll_deterministic(
    rng: RandomNumberGenerator,
    year: u32,
    index: usize,
    usage: u32,
    first: u32,
    second: u32,
)
    requires
        first == spec_next(rng, year, index, usage) % 100,
        second == spec_next(rng, year, index, usage) % 100,
    ensures
        first == second,
{
}

/// A mock source falls back to its default when no table entry matches the key.
pub proof fn lemma_mock_default(
    values: Seq<MockEntry>,
    key: (u32, usize, u32),
    default: u64,
)
    requires
        forall|k: int| 0 <= k < values.len() ==> (#[trigger] values[k]).0 != key,
    ensures
        spec_mock_lookup(values, key, default) == default,
    decreases values.len(),
{
    if values.len() > 0 {
        assert(values[0].0 != key);
        lemma_mock_default(values.drop_first(), key, default);
    }
}

} // verus!
