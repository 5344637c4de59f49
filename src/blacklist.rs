//! The blacklist table: a bounded set of IPv4 prefixes, each with a value,
//! looked up by longest prefix match.
use vstd::prelude::*;
use vstd::arithmetic::power2::pow2;
use vstd::bits::lemma_u32_shr_is_div;

verus! {

/// Longest prefix length of an IPv4 address.
pub const MAX_PREFIX_LEN: u32 = 32;

/// Number of entries of the table that the packet classifier reads.
pub const BLACKLIST_MAX_ENTRIES: usize = 1024;

/// A CIDR block: the first `prefix_len` bits of `addr` (most significant bit
/// first) are the prefix; the remaining bits are ignored.
#[derive(Clone, Copy, Debug, PartialEq, Eq, Structural)]
pub struct PrefixKey {
    pub prefix_len: u32,
    pub addr: u32,
}

impl PrefixKey {
    /// A key for the block of `prefix_len` leading bits of `addr`.
    pub fn new(prefix_len: u32, addr: u32) -> (r: PrefixKey)
        ensures
            r.prefix_len == prefix_len,
            r.addr == addr,
    {
        PrefixKey { prefix_len, addr }
    }
}

/// Why an insertion was refused.
#[derive(Clone, Copy, Debug, PartialEq, Eq, Structural)]
pub enum BlacklistError {
    /// The prefix length is over 32.
    InvalidPrefix,
    /// The key is new and the table already holds its maximum of entries.
    CapacityExceeded,
}

/// The block of `prefix_len` leading bits of `prefix` contains `addr`.
pub open spec fn covers(prefix_len: nat, prefix: u32, addr: u32) -> bool {
    &&& prefix_len <= 32
    &&& (prefix as nat) / pow2((32 - prefix_len) as nat) == (addr as nat) / pow2(
        (32 - prefix_len) as nat,
    )
}

/// The entry `e` is a block that contains `addr`.
pub open spec fn entry_covers(e: (PrefixKey, u32), addr: u32) -> bool {
    covers(e.0.prefix_len as nat, e.0.addr, addr)
}

/// Two keys name the same block: same length, same leading bits.
pub open spec fn same_block(a: PrefixKey, b: PrefixKey) -> bool {
    a.prefix_len == b.prefix_len && covers(a.prefix_len as nat, a.addr, b.addr)
}

/// The table `s` holds an entry for the block of `key`.
pub open spec fn has_block(s: Seq<(PrefixKey, u32)>, key: PrefixKey) -> bool {
    exists|i: int| 0 <= i < s.len() && same_block(#[trigger] s[i].0, key)
}

/// The index of the entry for the block of `key`, where `has_block` holds.
pub open spec fn block_index(s: Seq<(PrefixKey, u32)>, key: PrefixKey) -> int {
    choose|i: int| 0 <= i < s.len() && same_block(#[trigger] s[i].0, key)
}

/// A table of at most `cap` entries, with valid lengths and one entry per block.
pub open spec fn table_wf(s: Seq<(PrefixKey, u32)>, cap: nat) -> bool {
    &&& s.len() <= cap
    &&& forall|i: int| 0 <= i < s.len() ==> (#[trigger] s[i]).0.prefix_len <= 32
    &&& forall|i: int, j: int|
        0 <= i < s.len() && 0 <= j < s.len() && i != j ==> !same_block(
            #[trigger] s[i].0,
            #[trigger] s[j].0,
        )
}

/// Entry `i` of `s` contains `addr`, and no entry with a longer prefix does.
pub open spec fn is_longest_match(s: Seq<(PrefixKey, u32)>, i: int, addr: u32) -> bool {
    &&& 0 <= i < s.len()
    &&& entry_covers(s[i], addr)
    &&& forall|j: int|
        0 <= j < s.len() && entry_covers(#[trigger] s[j], addr) ==> s[j].0.prefix_len
            <= s[i].0.prefix_len
}

/// Longest prefix match: the value of the most specific entry that contains
/// `addr`, or `None` where no entry does.
pub open spec fn lpm(s: Seq<(PrefixKey, u32)>, addr: u32) -> Option<u32> {
    if exists|i: int| is_longest_match(s, i, addr) {
        Some(s[choose|i: int| is_longest_match(s, i, addr)].1)
    } else {
        None
    }
}

/// What an insertion into `s` (at most `cap` entries) returns, and the table
/// after it.
pub open spec fn insert_outcome(
    s: Seq<(PrefixKey, u32)>,
    cap: nat,
    key: PrefixKey,
    value: u32,
) -> (Result<(), BlacklistError>, Seq<(PrefixKey, u32)>) {
    if key.prefix_len > 32 {
        (Err(BlacklistError::InvalidPrefix), s)
    } else if has_block(s, key) {
        (Ok(()), s.update(block_index(s, key), (key, value)))
    } else if s.len() >= cap {
        (Err(BlacklistError::CapacityExceeded), s)
    } else {
        (Ok(()), s.push((key, value)))
    }
}

/// In a well-formed table, two longest matches are the same entry.
proof fn lemma_longest_match_unique(s: Seq<(PrefixKey, u32)>, cap: nat, i: int, j: int, addr: u32)
    requires
        table_wf(s, cap),
        is_longest_match(s, i, addr),
        is_longest_match(s, j, addr),
    ensures
        i == j,
{
    if i != j {
        assert(same_block(s[i].0, s[j].0));
    }
}

/// `lpm` returns the value of the longest match `i`.
proof fn lemma_lpm_is(s: Seq<(PrefixKey, u32)>, cap: nat, i: int, addr: u32)
    requires
        table_wf(s, cap),
        is_longest_match(s, i, addr),
    ensures
        lpm(s, addr) == Some(s[i].1),
{
    let c = choose|k: int| is_longest_match(s, k, addr);
    lemma_longest_match_unique(s, cap, c, i, addr);
}

/// Where entry `j` contains `addr`, some longest match does too, with a
/// prefix at least as long as that of `j`.
proof fn lemma_longest_match_exists(s: Seq<(PrefixKey, u32)>, cap: nat, j: int, addr: u32)
    requires
        table_wf(s, cap),
        0 <= j < s.len(),
        entry_covers(s[j], addr),
    ensures
        exists|k: int| is_longest_match(s, k, addr) && s[k].0.prefix_len >= s[j].0.prefix_len,
    decreases 32 - s[j].0.prefix_len,
{
    if !is_longest_match(s, j, addr) {
        let k = choose|k: int|
            0 <= k < s.len() && entry_covers(#[trigger] s[k], addr) && s[k].0.prefix_len
                > s[j].0.prefix_len;
        lemma_longest_match_exists(s, cap, k, addr);
    }
}

/// Some entry contains `addr` exactly when the lookup finds a value.
pub proof fn lemma_lpm_some_iff_covered(s: Seq<(PrefixKey, u32)>, cap: nat, addr: u32)
    requires
        table_wf(s, cap),
    ensures
        lpm(s, addr) is Some <==> exists|j: int| 0 <= j < s.len() && entry_covers(#[trigger] s[j], addr),
{
    if exists|j: int| 0 <= j < s.len() && entry_covers(#[trigger] s[j], addr) {
        let j = choose|j: int| 0 <= j < s.len() && entry_covers(#[trigger] s[j], addr);
        lemma_longest_match_exists(s, cap, j, addr);
    }
}

/// Longest prefix match: where two entries contain `addr`, the value found
/// is that of an entry that contains `addr` and whose prefix is at least as
/// long as the longer of the two; a shorter prefix never decides.
pub proof fn lemma_longest_prefix_wins(s: Seq<(PrefixKey, u32)>, cap: nat, i: int, j: int, addr: u32)
    requires
        table_wf(s, cap),
        0 <= i < s.len(),
        0 <= j < s.len(),
        entry_covers(s[i], addr),
        entry_covers(s[j], addr),
        s[i].0.prefix_len < s[j].0.prefix_len,
    ensures
        exists|k: int|
            #![trigger s[k]]
            0 <= k < s.len() && entry_covers(s[k], addr) && lpm(s, addr) == Some(s[k].1)
                && s[k].0.prefix_len >= s[j].0.prefix_len,
{
    lemma_longest_match_exists(s, cap, j, addr);
    let k = choose|k: int| is_longest_match(s, k, addr) && s[k].0.prefix_len >= s[j].0.prefix_len;
    lemma_lpm_is(s, cap, k, addr);
}

/// Of two prefixes that both contain `addr`, the longer one's value is found,
/// whichever was stored first.
pub proof fn lemma_longer_prefix_precedence(p1: PrefixKey, v1: u32, p2: PrefixKey, v2: u32, addr: u32)
    requires
        p1.prefix_len < p2.prefix_len,
        covers(p1.prefix_len as nat, p1.addr, addr),
        covers(p2.prefix_len as nat, p2.addr, addr),
    ensures
        lpm(seq![(p1, v1), (p2, v2)], addr) == Some(v2),
        lpm(seq![(p2, v2), (p1, v1)], addr) == Some(v2),
{
    let s1 = seq![(p1, v1), (p2, v2)];
    let s2 = seq![(p2, v2), (p1, v1)];
    assert(table_wf(s1, 2));
    assert(table_wf(s2, 2));
    assert(is_longest_match(s1, 1, addr));
    assert(is_longest_match(s2, 0, addr));
    lemma_lpm_is(s1, 2, 1, addr);
    lemma_lpm_is(s2, 2, 0, addr);
}

/// A /32 block contains its own address and no other.
pub proof fn lemma_host_prefix_exact(prefix: u32, addr: u32)
    ensures
        covers(32, prefix, addr) <==> prefix == addr,
{
    assert(pow2(0) == 1) by {
        vstd::arithmetic::power2::lemma2_to64();
    }
    assert((32 - 32nat) as nat == 0);
    assert(prefix as nat / pow2(0) == prefix as nat);
    assert(addr as nat / pow2(0) == addr as nat);
}

/// A new block is refused exactly when the table is full, and a refused
/// insertion leaves the table as it was.
pub proof fn lemma_capacity_boundary(s: Seq<(PrefixKey, u32)>, cap: nat, key: PrefixKey, value: u32)
    requires
        table_wf(s, cap),
        key.prefix_len <= 32,
        !has_block(s, key),
    ensures
        insert_outcome(s, cap, key, value).0 == Err::<(), BlacklistError>(
            BlacklistError::CapacityExceeded,
        ) <==> s.len() == cap,
        s.len() == cap ==> insert_outcome(s, cap, key, value).1 == s,
        s.len() < cap ==> table_wf(insert_outcome(s, cap, key, value).1, cap),
{
    if s.len() < cap {
        let t = s.push((key, value));
        assert forall|i: int, j: int|
            0 <= i < t.len() && 0 <= j < t.len() && i != j implies !same_block(
            #[trigger] t[i].0,
            #[trigger] t[j].0,
        ) by {
            if i == s.len() {
                assert(!same_block(s[j].0, key));
            } else if j == s.len() {
                assert(!same_block(s[i].0, key));
            }
        }
    }
}

/// Executable form of `covers`.
fn block_contains(prefix_len: u32, prefix: u32, addr: u32) -> (r: bool)
    requires
        prefix_len <= 32,
    ensures
        r == covers(prefix_len as nat, prefix, addr),
{
    if prefix_len == 0 {
        proof {
            assert(pow2(32) == 0x1_0000_0000) by {
                vstd::arithmetic::power2::lemma2_to64();
            }
            vstd::arithmetic::div_mod::lemma_basic_div(prefix as int, pow2(32) as int);
            vstd::arithmetic::div_mod::lemma_basic_div(addr as int, pow2(32) as int);
        }
        true
    } else {
        let shift: u32 = 32 - prefix_len;
        proof {
            lemma_u32_shr_is_div(prefix, shift);
            lemma_u32_shr_is_div(addr, shift);
        }
        (prefix >> shift) == (addr >> shift)
    }
}

/// The blacklist table: at most `max_entries` prefixes, each with a value.
pub struct Blacklist {
    entries: Vec<(PrefixKey, u32)>,
    max_entries: usize,
}

impl View for Blacklist {
    type V = Seq<(PrefixKey, u32)>;

    closed spec fn view(&self) -> Seq<(PrefixKey, u32)> {
        self.entries@
    }
}

impl Blacklist {
    /// The most entries the table takes.
    pub closed spec fn capacity(&self) -> nat {
        self.max_entries as nat
    }

    pub open spec fn wf(&self) -> bool {
        table_wf(self@, self.capacity())
    }

    /// An empty table of the classifier's size.
    pub fn new() -> (r: Blacklist)
        ensures
            r.wf(),
            r@ == Seq::<(PrefixKey, u32)>::empty(),
            r.capacity() == BLACKLIST_MAX_ENTRIES,
    {
        Blacklist { entries: Vec::new(), max_entries: BLACKLIST_MAX_ENTRIES }
    }

    /// An empty table that takes at most `max_entries` entries.
    pub fn with_max_entries(max_entries: usize) -> (r: Blacklist)
        ensures
            r.wf(),
            r@ == Seq::<(PrefixKey, u32)>::empty(),
            r.capacity() == max_entries,
    {
        Blacklist { entries: Vec::new(), max_entries }
    }

    /// The number of entries held.
    pub fn len(&self) -> (r: usize)
        ensures
            r == self@.len(),
    {
        self.entries.len()
    }

    /// The most entries the table takes.
    pub fn max_entries(&self) -> (r: usize)
        ensures
            r == self.capacity(),
    {
        self.max_entries
    }

    /// The value of the longest stored prefix that contains `addr`.
    pub fn lookup(&self, addr: u32) -> (r: Option<u32>)
        requires
            self.wf(),
        ensures
            r == lpm(self@, addr),
    {
        let mut best: Option<usize> = None;
        let mut i: usize = 0;
        while i < self.entries.len()
            invariant
                self.wf(),
                i <= self@.len(),
                best matches Some(b) ==> {
                    &&& b < i
                    &&& entry_covers(self@[b as int], addr)
                    &&& forall|j: int|
                        0 <= j < i && entry_covers(#[trigger] self@[j], addr)
                            ==> self@[j].0.prefix_len <= self@[b as int].0.prefix_len
                },
                best is None ==> forall|j: int| 0 <= j < i ==> !entry_covers(#[trigger] self@[j], addr),
            decreases self@.len() - i,
        {
            let e = self.entries[i];
            if block_contains(e.0.prefix_len, e.0.addr, addr) {
                match best {
                    Some(b) => {
                        if e.0.prefix_len > self.entries[b].0.prefix_len {
                            best = Some(i);
                        }
                    },
                    None => {
                        best = Some(i);
                    },
                }
            }
            i = i + 1;
        }
        match best {
            Some(b) => {
                proof {
                    lemma_lpm_is(self@, self.capacity(), b as int, addr);
                }
                Some(self.entries[b].1)
            },
            None => {
                assert(!exists|k: int| is_longest_match(self@, k, addr));
                None
            },
        }
    }

    /// Adds `key` with `value`, or replaces the value of the entry for the
    /// same block. A new block is refused once the table is full.
    pub fn insert(&mut self, key: PrefixKey, value: u32) -> (r: Result<(), BlacklistError>)
        requires
            old(self).wf(),
        ensures
            final(self).wf(),
            final(self).capacity() == old(self).capacity(),
            (r, final(self)@) == insert_outcome(old(self)@, old(self).capacity(), key, value),
    {
        if key.prefix_len > MAX_PREFIX_LEN {
            return Err(BlacklistError::InvalidPrefix);
        }
        let mut i: usize = 0;
        while i < self.entries.len()
            invariant
                self.wf(),
                self@ == old(self)@,
                self.capacity() == old(self).capacity(),
                key.prefix_len <= 32,
                i <= self@.len(),
                forall|j: int| 0 <= j < i ==> !same_block(#[trigger] self@[j].0, key),
            decreases self@.len() - i,
        {
            let e = self.entries[i];
            if e.0.prefix_len == key.prefix_len && block_contains(e.0.prefix_len, e.0.addr, key.addr) {
                let ghost s = self@;
                assert(has_block(s, key));
                proof {
                    let c = block_index(s, key);
                    if c != i as int {
                        assert(same_block(s[c].0, s[i as int].0));
                    }
                }
                self.entries.set(i, (key, value));
                proof {
                    assert forall|a: int, b: int|
                        0 <= a < self@.len() && 0 <= b < self@.len() && a != b implies !same_block(
                        #[trigger] self@[a].0,
                        #[trigger] self@[b].0,
                    ) by {
                        if a == i as int {
                            assert(!same_block(s[i as int].0, s[b].0));
                        } else if b == i as int {
                            assert(!same_block(s[a].0, s[i as int].0));
                        }
                    }
                }
                return Ok(());
            }
            i = i + 1;
        }
        if self.entries.len() >= self.max_entries {
            return Err(BlacklistError::CapacityExceeded);
        }
        self.entries.push((key, value));
        Ok(())
    }
}

} // verus!
