//! Cold-state account hibernation: compact binary snapshots of dormant player profiles with an
//! Adler-32 integrity checksum.
use vstd::prelude::*;

use crate::byte_order::{
    be_u16, be_u32, be_u64, copy_into, lemma_u16_be_roundtrip, lemma_u32_be_roundtrip,
    lemma_u64_be_roundtrip, push_u16_be, push_u32_be, push_u64_be, read_u16_be, read_u32_be,
    read_u64_be, u16_of_be, u32_of_be, u64_of_be,
};
use crate::error::WorldError;
use crate::slots::{first_index, lemma_first_index};

verus! {

/// Snapshot magic bytes `EIHB`.
pub const HIBERNATION_MAGIC: [u8; 4] = [0x45, 0x49, 0x48, 0x42];

/// Current binary snapshot schema version.
pub const HIBERNATION_SCHEMA_VERSION: u16 = 1;

/// Maximum number of characters stored in a player roster.
pub const MAX_ROSTER_SIZE: usize = 32;

/// Length of the fixed snapshot header that precedes the payload.
pub const SNAPSHOT_HEADER_LEN: usize = 32;

/// The snapshot magic as a byte sequence.
pub open spec fn magic_bytes() -> Seq<u8> {
    seq![0x45u8, 0x49u8, 0x48u8, 0x42u8]
}

// ---------------------------------------------------------------------------------------------
// Adler-32
// ---------------------------------------------------------------------------------------------

/// The running Adler-32 sums `(a, b)` after folding every byte of `s`.
pub open spec fn adler_sums(s: Seq<u8>) -> (int, int)
    decreases s.len(),
{
    if s.len() == 0 {
        (1, 0)
    } else {
        let p = adler_sums(s.drop_last());
        let a = (p.0 + s.last()) % 65521;
        (a, (p.1 + a) % 65521)
    }
}

/// Adler-32 checksum of `s`: `b * 65536 + a` over the running sums modulo 65521.
pub open spec fn adler32(s: Seq<u8>) -> u32 {
    let p = adler_sums(s);
    (p.1 * 65536 + p.0) as u32
}

proof fn lemma_adler_sums_bounded(s: Seq<u8>)
    ensures
        0 <= adler_sums(s).0 < 65521,
        0 <= adler_sums(s).1 < 65521,
    decreases s.len(),
{
    if s.len() > 0 {
        lemma_adler_sums_bounded(s.drop_last());
    }
}

/// Computes the Adler-32 checksum of `data`.
pub fn compute_adler32(data: &[u8]) -> (c: u32)
    ensures
        c == adler32(data@),
{
    let n = data.len();
    let mut a: u32 = 1;
    let mut b: u32 = 0;
    let mut i: usize = 0;
    while i < n
        invariant
            i <= n,
            n == data@.len(),
            a < 65521,
            b < 65521,
            (a as int, b as int) == adler_sums(data@.take(i as int)),
        decreases n - i,
    {
        assert(data@.take(i + 1).drop_last() =~= data@.take(i as int));
        a = (a + data[i] as u32) % 65521;
        b = (b + a) % 65521;
        i = i + 1;
    }
    assert(data@.take(n as int) =~= data@);
    assert((b << 16u32) | a == b * 65536 + a) by (bit_vector)
        requires
            a < 65536,
            b < 65536,
    ;
    (b << 16u32) | a
}

// ---------------------------------------------------------------------------------------------
// Profile model
// ---------------------------------------------------------------------------------------------

/// Fixed-size header of a cold-state account snapshot.
#[derive(Debug, Clone, Copy, PartialEq, Eq)]
pub struct HibernationHeader {
    /// Protocol magic identifier.
    pub magic: [u8; 4],
    /// Schema version.
    pub version: u16,
    /// Account identifier.
    pub account_id: u64,
    /// Last recorded login timestamp (seconds since the UNIX epoch).
    pub last_active_epoch_sec: u64,
    /// Payload length in bytes, excluding the header.
    pub payload_byte_len: u32,
    /// Adler-32 checksum of the payload.
    pub checksum: u32,
}

/// Gacha pity counters and guaranteed banner pull state.
#[derive(Debug, Clone, Copy, PartialEq, Eq, Default, Structural)]
pub struct PityState {
    /// Pity counter on the standard permanent banner.
    pub standard_banner_pity: u16,
    /// Pity counter on the limited event banner.
    pub limited_banner_pity: u16,
    /// The next five-star pull is guaranteed to be the rate-up character.
    pub is_guaranteed_rate_up: bool,
    /// Consecutive four-star pity counter.
    pub consecutive_4star_pity: u8,
}

/// Compact character state within a player roster.
#[derive(Debug, Clone, Copy, PartialEq, Eq, Default, Structural)]
pub struct CharacterRecord {
    /// Character blueprint identifier.
    pub character_id: u32,
    /// Progression level.
    pub level: u16,
    /// Ascension rank.
    pub ascension_tier: u8,
    /// Constellation rank.
    pub constellation: u8,
}

/// Player profile that can be hibernated into a snapshot and hydrated back.
#[derive(Debug, Clone, PartialEq, Eq)]
pub struct PlayerProfile {
    /// Account identifier.
    pub account_id: u64,
    /// Overall player rank.
    pub player_level: u32,
    /// Premium currency balance.
    pub premium_currency: u64,
    /// Standard currency balance.
    pub free_currency: u64,
    /// Pity and guarantee counters.
    pub pity: PityState,
    /// Owned characters.
    pub roster: [Option<CharacterRecord>; 32],
    /// Number of owned characters.
    pub character_count: usize,
}

/// Slot predicate: the slot holds the character `id`.
pub open spec fn holds_character(id: u32) -> spec_fn(Option<CharacterRecord>) -> bool {
    |e: Option<CharacterRecord>| e matches Some(c) && c.character_id == id
}

/// Slot predicate: the slot is free.
pub open spec fn vacant_slot() -> spec_fn(Option<CharacterRecord>) -> bool {
    |e: Option<CharacterRecord>| e is None
}

/// The first `c` slots hold characters and the rest are free.
pub open spec fn roster_packed(s: Seq<Option<CharacterRecord>>, c: int) -> bool {
    &&& 0 <= c <= s.len()
    &&& forall|i: int| 0 <= i < s.len() ==> (#[trigger] s[i] is Some <==> i < c)
}

impl PlayerProfile {
    /// The roster holds its characters in its first `character_count` slots.
    pub open spec fn wf(&self) -> bool {
        roster_packed(self.roster@, self.character_count as int)
    }

    /// A fresh profile at level 1 with no currency, default pity and an empty roster.
    pub fn new(account_id: u64) -> (p: Self)
        ensures
            p.wf(),
            p.account_id == account_id,
            p.player_level == 1,
            p.premium_currency == 0,
            p.free_currency == 0,
            p.pity == (PityState {
                standard_banner_pity: 0,
                limited_banner_pity: 0,
                is_guaranteed_rate_up: false,
                consecutive_4star_pity: 0,
            }),
            p.character_count == 0,
            p.roster@ == Seq::new(32, |i: int| None::<CharacterRecord>),
    {
        let p = PlayerProfile {
            account_id,
            player_level: 1,
            premium_currency: 0,
            free_currency: 0,
            pity: PityState {
                standard_banner_pity: 0,
                limited_banner_pity: 0,
                is_guaranteed_rate_up: false,
                consecutive_4star_pity: 0,
            },
            roster: [None; 32],
            character_count: 0,
        };
        assert(p.roster@ =~= Seq::new(32, |i: int| None::<CharacterRecord>));
        p
    }

    /// Updates the owned character with the same id in place, or stores a new one in the first
    /// free slot; a full roster refuses it.
    #[verifier::loop_isolation(false)]
    pub fn add_character(&mut self, char_record: CharacterRecord) -> (r: Result<(), WorldError>)
        requires
            old(self).character_count == usize::MAX ==> first_index(
                old(self).roster@,
                holds_character(char_record.character_id),
            ) >= 0 || first_index(old(self).roster@, vacant_slot()) < 0,
        ensures
            final(self).account_id == old(self).account_id,
            final(self).player_level == old(self).player_level,
            final(self).premium_currency == old(self).premium_currency,
            final(self).free_currency == old(self).free_currency,
            final(self).pity == old(self).pity,
            ({
                let k = first_index(old(self).roster@, holds_character(char_record.character_id));
                let f = first_index(old(self).roster@, vacant_slot());
                if k >= 0 {
                    &&& r is Ok
                    &&& final(self).roster@ == old(self).roster@.update(k, Some(char_record))
                    &&& final(self).character_count == old(self).character_count
                } else if f >= 0 {
                    &&& r is Ok
                    &&& final(self).roster@ == old(self).roster@.update(f, Some(char_record))
                    &&& final(self).character_count == old(self).character_count + 1
                } else {
                    &&& r == Err::<(), WorldError>(
                        WorldError::InvalidSnapshot("Roster capacity reached"),
                    )
                    &&& final(self).roster@ == old(self).roster@
                    &&& final(self).character_count == old(self).character_count
                }
            }),
            old(self).wf() ==> final(self).wf(),
    {
        let ghost s = self.roster@;
        let ghost p = holds_character(char_record.character_id);
        let ghost q = vacant_slot();
        proof {
            lemma_first_index(s, p);
            lemma_first_index(s, q);
        }
        let mut i: usize = 0;
        while i < 32
            invariant
                i <= 32,
                s == self.roster@,
                s == old(self).roster@,
                *self == *old(self),
                p == holds_character(char_record.character_id),
                forall|j: int| 0 <= j < i ==> !p(#[trigger] s[j]),
            decreases 32 - i,
        {
            if let Some(c) = self.roster[i] {
                if c.character_id == char_record.character_id {
                    proof {
                        crate::slots::lemma_first_index_is(s, p, i as int);
                    }
                    self.roster[i] = Some(char_record);
                    return Ok(());
                }
            }
            i = i + 1;
        }
        proof {
            crate::slots::lemma_first_index_none(s, p);
        }
        let mut i: usize = 0;
        while i < 32
            invariant
                i <= 32,
                s == self.roster@,
                s == old(self).roster@,
                *self == *old(self),
                first_index(s, p) == -1,
                q == vacant_slot(),
                forall|j: int| 0 <= j < i ==> !q(#[trigger] s[j]),
            decreases 32 - i,
        {
            if self.roster[i].is_none() {
                proof {
                    crate::slots::lemma_first_index_is(s, q, i as int);
                    if old(self).wf() {
                        assert(i == old(self).character_count) by {
                            if (i as int) < old(self).character_count {
                                assert(s[i as int] is Some);
                            } else if (i as int) > old(self).character_count {
                                let c = old(self).character_count as int;
                                assert(s[c] is None);
                                assert(q(s[c]));
                            }
                        }
                    }
                }
                self.roster[i] = Some(char_record);
                self.character_count = self.character_count + 1;
                return Ok(());
            }
            i = i + 1;
        }
        proof {
            crate::slots::lemma_first_index_none(s, q);
        }
        Err(WorldError::InvalidSnapshot("Roster capacity reached"))
    }
}

// ---------------------------------------------------------------------------------------------
// Snapshot layout
// ---------------------------------------------------------------------------------------------

/// The eight bytes of one roster entry.
pub open spec fn character_bytes(c: CharacterRecord) -> Seq<u8> {
    be_u32(c.character_id) + be_u16(c.level) + seq![c.ascension_tier, c.constellation]
}

/// The entries of every occupied slot, in slot order.
pub open spec fn roster_bytes(s: Seq<Option<CharacterRecord>>) -> Seq<u8>
    decreases s.len(),
{
    if s.len() == 0 {
        Seq::empty()
    } else {
        roster_bytes(s.drop_last()) + match s.last() {
            Some(c) => character_bytes(c),
            None => Seq::empty(),
        }
    }
}

/// The fixed 27-byte part of the payload: level, currencies, pity and the roster count.
pub open spec fn payload_prefix(p: PlayerProfile) -> Seq<u8> {
    be_u32(p.player_level) + be_u64(p.premium_currency) + be_u64(p.free_currency) + be_u16(
        p.pity.standard_banner_pity,
    ) + be_u16(p.pity.limited_banner_pity) + seq![
        if p.pity.is_guaranteed_rate_up { 1u8 } else { 0u8 },
        p.pity.consecutive_4star_pity,
        p.character_count as u8,
    ]
}

/// The snapshot payload of a profile.
pub open spec fn snapshot_payload(p: PlayerProfile) -> Seq<u8> {
    payload_prefix(p) + roster_bytes(p.roster@)
}

/// The 32-byte snapshot header for a payload.
pub open spec fn snapshot_header(account_id: u64, epoch_sec: u64, payload: Seq<u8>) -> Seq<u8> {
    magic_bytes() + be_u16(1) + be_u64(account_id) + be_u64(epoch_sec) + be_u32(
        payload.len() as u32,
    ) + be_u32(adler32(payload)) + seq![0u8, 0u8]
}

/// The complete snapshot written for a profile at `epoch_sec`.
pub open spec fn snapshot_bytes(p: PlayerProfile, epoch_sec: u64) -> Seq<u8> {
    snapshot_header(p.account_id, epoch_sec, snapshot_payload(p)) + snapshot_payload(p)
}

/// Payload length recorded in a snapshot header.
pub open spec fn recorded_payload_len(s: Seq<u8>) -> int {
    u32_of_be(s.subrange(22, 26)) as int
}

/// Magic, schema version and lengths of a snapshot are acceptable.
pub open spec fn snapshot_framing_ok(s: Seq<u8>) -> bool {
    &&& s.len() >= 32
    &&& s.subrange(0, 4) == magic_bytes()
    &&& u16_of_be(s.subrange(4, 6)) == 1
    &&& s.len() >= 32 + recorded_payload_len(s)
}

/// The snapshot is well framed and its payload matches the recorded checksum.
pub open spec fn snapshot_accepted(s: Seq<u8>) -> bool {
    &&& snapshot_framing_ok(s)
    &&& adler32(s.subrange(32, 32 + recorded_payload_len(s))) == u32_of_be(s.subrange(26, 30))
}

/// Number of roster entries a snapshot announces, capped at the roster size.
pub open spec fn announced_characters(s: Seq<u8>) -> int {
    if s[58] > 32 {
        32
    } else {
        s[58] as int
    }
}

/// The snapshot holds every field that hydration reads.
pub open spec fn snapshot_readable(s: Seq<u8>) -> bool {
    s.len() >= 59 && s.len() >= 59 + 8 * announced_characters(s)
}

/// The roster entry stored at byte offset `off`.
pub open spec fn character_at(s: Seq<u8>, off: int) -> CharacterRecord {
    CharacterRecord {
        character_id: u32_of_be(s.subrange(off, off + 4)),
        level: u16_of_be(s.subrange(off + 4, off + 6)),
        ascension_tier: s[off + 6],
        constellation: s[off + 7],
    }
}

/// `p` is the profile that an accepted snapshot `s` describes.
pub open spec fn decoded_profile(p: PlayerProfile, s: Seq<u8>) -> bool {
    &&& p.account_id == u64_of_be(s.subrange(6, 14))
    &&& p.player_level == u32_of_be(s.subrange(32, 36))
    &&& p.premium_currency == u64_of_be(s.subrange(36, 44))
    &&& p.free_currency == u64_of_be(s.subrange(44, 52))
    &&& p.pity == (PityState {
        standard_banner_pity: u16_of_be(s.subrange(52, 54)),
        limited_banner_pity: u16_of_be(s.subrange(54, 56)),
        is_guaranteed_rate_up: s[56] == 1,
        consecutive_4star_pity: s[57],
    })
    &&& p.character_count == announced_characters(s)
    &&& p.roster@ == Seq::new(
        32,
        |i: int|
            if i < announced_characters(s) {
                Some(character_at(s, 59 + 8 * i))
            } else {
                None
            },
    )
}

fn push_character(out: &mut Vec<u8>, c: CharacterRecord)
    ensures
        final(out)@ == old(out)@ + character_bytes(c),
{
    push_u32_be(out, c.character_id);
    push_u16_be(out, c.level);
    out.push(c.ascension_tier);
    out.push(c.constellation);
    assert(final(out)@ =~= old(out)@ + character_bytes(c));
}

impl PlayerProfile {
    /// Writes the snapshot of this profile at the start of `out`, returning its length; a
    /// buffer shorter than 512 bytes is refused and left untouched.
    pub fn serialize_snapshot(&self, epoch_sec: u64, out: &mut [u8]) -> (r: Result<usize, WorldError>)
        ensures
            old(out)@.len() < 512 ==> (r == Err::<usize, WorldError>(
                WorldError::InvalidSnapshot("Buffer too small"),
            ) && final(out)@ == old(out)@),
            old(out)@.len() >= 512 ==> ({
                let snap = snapshot_bytes(*self, epoch_sec);
                &&& r == Ok::<usize, WorldError>(snap.len() as usize)
                &&& snap.len() <= 315
                &&& final(out)@ == snap + old(out)@.subrange(snap.len() as int, old(out)@.len() as int)
            }),
    {
        if out.len() < 512 {
            return Err(WorldError::InvalidSnapshot("Buffer too small"));
        }
        let mut payload: Vec<u8> = Vec::new();
        push_u32_be(&mut payload, self.player_level);
        push_u64_be(&mut payload, self.premium_currency);
        push_u64_be(&mut payload, self.free_currency);
        push_u16_be(&mut payload, self.pity.standard_banner_pity);
        push_u16_be(&mut payload, self.pity.limited_banner_pity);
        payload.push(if self.pity.is_guaranteed_rate_up { 1u8 } else { 0u8 });
        payload.push(self.pity.consecutive_4star_pity);
        payload.push(self.character_count as u8);
        assert(payload@ =~= payload_prefix(*self));
        let ghost roster = self.roster@;
        let mut i: usize = 0;
        while i < 32
            invariant
                i <= 32,
                roster == self.roster@,
                roster.len() == 32,
                payload@ == payload_prefix(*self) + roster_bytes(roster.take(i as int)),
                payload@.len() <= 27 + 8 * i,
            decreases 32 - i,
        {
            assert(roster.take(i + 1).drop_last() =~= roster.take(i as int));
            if let Some(c) = self.roster[i] {
                push_character(&mut payload, c);
            }
            assert(payload@ =~= payload_prefix(*self) + roster_bytes(roster.take(i + 1)));
            i = i + 1;
        }
        assert(roster.take(32) =~= roster);
        assert(payload@ == snapshot_payload(*self));
        let checksum = compute_adler32(payload.as_slice());
        let plen = payload.len();
        let mut header: Vec<u8> = Vec::new();
        header.push(0x45u8);
        header.push(0x49u8);
        header.push(0x48u8);
        header.push(0x42u8);
        push_u16_be(&mut header, HIBERNATION_SCHEMA_VERSION);
        push_u64_be(&mut header, self.account_id);
        push_u64_be(&mut header, epoch_sec);
        push_u32_be(&mut header, plen as u32);
        push_u32_be(&mut header, checksum);
        header.push(0u8);
        header.push(0u8);
        assert(header@ =~= snapshot_header(self.account_id, epoch_sec, payload@));
        let ghost o0 = out@;
        copy_into(out, 0, header.as_slice());
        let ghost o1 = out@;
        copy_into(out, 32, payload.as_slice());
        assert(out@ =~= snapshot_bytes(*self, epoch_sec) + o0.subrange(32 + plen, o0.len() as int));
        Ok(32 + plen)
    }

    /// Hydrates a profile from a snapshot. Bad framing (length, magic, version, payload length)
    /// is `InvalidSnapshot`; a payload that does not match its checksum is `SnapshotCorrupted`.
    pub fn deserialize_snapshot(slice: &[u8]) -> (r: Result<Self, WorldError>)
        requires
            snapshot_accepted(slice@) ==> snapshot_readable(slice@),
        ensures
            slice@.len() < 32 ==> r == Err::<Self, WorldError>(
                WorldError::InvalidSnapshot("Snapshot too short"),
            ),
            slice@.len() >= 32 && slice@.subrange(0, 4) != magic_bytes() ==> r == Err::<
                Self,
                WorldError,
            >(WorldError::InvalidSnapshot("Invalid magic bytes")),
            slice@.len() >= 32 && slice@.subrange(0, 4) == magic_bytes() && u16_of_be(
                slice@.subrange(4, 6),
            ) != 1 ==> r == Err::<Self, WorldError>(
                WorldError::InvalidSnapshot("Unsupported schema version"),
            ),
            slice@.len() >= 32 && slice@.subrange(0, 4) == magic_bytes() && u16_of_be(
                slice@.subrange(4, 6),
            ) == 1 && slice@.len() < 32 + recorded_payload_len(slice@) ==> r == Err::<
                Self,
                WorldError,
            >(WorldError::InvalidSnapshot("Truncated payload")),
            snapshot_framing_ok(slice@) && !snapshot_accepted(slice@) ==> r == Err::<Self, WorldError>(
                WorldError::SnapshotCorrupted,
            ),
            snapshot_accepted(slice@) ==> (r matches Ok(p) && decoded_profile(p, slice@)),
    {
        let ghost s = slice@;
        if slice.len() < 32 {
            return Err(WorldError::InvalidSnapshot("Snapshot too short"));
        }
        if slice[0] != 0x45u8 || slice[1] != 0x49u8 || slice[2] != 0x48u8 || slice[3] != 0x42u8 {
            proof {
                if s.subrange(0, 4) == magic_bytes() {
                    assert(s[0] == s.subrange(0, 4)[0]);
                    assert(s[1] == s.subrange(0, 4)[1]);
                    assert(s[2] == s.subrange(0, 4)[2]);
                    assert(s[3] == s.subrange(0, 4)[3]);
                }
            }
            return Err(WorldError::InvalidSnapshot("Invalid magic bytes"));
        }
        assert(s.subrange(0, 4) =~= magic_bytes());
        let version = read_u16_be(slice, 4);
        if version != HIBERNATION_SCHEMA_VERSION {
            return Err(WorldError::InvalidSnapshot("Unsupported schema version"));
        }
        let account_id = read_u64_be(slice, 6);
        let payload_len = read_u32_be(slice, 22);
        let expected_checksum = read_u32_be(slice, 26);
        if slice.len() - 32 < payload_len as usize {
            return Err(WorldError::InvalidSnapshot("Truncated payload"));
        }
        let payload_slice = vstd::slice::slice_subrange(slice, 32, 32 + payload_len as usize);
        let actual_checksum = compute_adler32(payload_slice);
        if actual_checksum != expected_checksum {
            return Err(WorldError::SnapshotCorrupted);
        }
        let player_level = read_u32_be(slice, 32);
        let premium_currency = read_u64_be(slice, 36);
        let free_currency = read_u64_be(slice, 44);
        let standard_banner_pity = read_u16_be(slice, 52);
        let limited_banner_pity = read_u16_be(slice, 54);
        let is_guaranteed_rate_up = slice[56] == 1;
        let consecutive_4star_pity = slice[57];
        let pity = PityState {
            standard_banner_pity,
            limited_banner_pity,
            is_guaranteed_rate_up,
            consecutive_4star_pity,
        };
        let char_count = slice[58] as usize;
        let take = if char_count > 32 { 32 } else { char_count };
        let mut roster: [Option<CharacterRecord>; 32] = [None; 32];
        let mut i: usize = 0;
        while i < take
            invariant
                i <= take,
                take == announced_characters(s),
                s == slice@,
                snapshot_readable(s),
                roster@.len() == 32,
                forall|j: int|
                    0 <= j < 32 ==> #[trigger] roster@[j] == if j < i {
                        Some(character_at(s, 59 + 8 * j))
                    } else {
                        None
                    },
            decreases take - i,
        {
            let off = 59 + 8 * i;
            let character_id = read_u32_be(slice, off);
            let level = read_u16_be(slice, off + 4);
            let ascension_tier = slice[off + 6];
            let constellation = slice[off + 7];
            roster[i] = Some(CharacterRecord { character_id, level, ascension_tier, constellation });
            i = i + 1;
        }
        let p = PlayerProfile {
            account_id,
            player_level,
            premium_currency,
            free_currency,
            pity,
            roster,
            character_count: take,
        };
        assert(p.roster@ =~= Seq::new(
            32,
            |i: int|
                if i < announced_characters(s) {
                    Some(character_at(s, 59 + 8 * i))
                } else {
                    None
                },
        ));
        Ok(p)
    }
}

// ---------------------------------------------------------------------------------------------
// Laws
// ---------------------------------------------------------------------------------------------

/// The entries of a packed roster lie back to back, eight bytes each, in slot order.
pub proof fn lemma_roster_bytes_packed(s: Seq<Option<CharacterRecord>>, c: int)
    requires
        roster_packed(s, c),
    ensures
        roster_bytes(s).len() == 8 * c,
        forall|i: int|
            0 <= i < c ==> #[trigger] roster_bytes(s).subrange(8 * i, 8 * i + 8) == character_bytes(
                s[i]->0,
            ),
    decreases s.len(),
{
    if s.len() > 0 {
        let d = s.drop_last();
        let n = s.len() - 1;
        if s.last() is None {
            assert(!(n < c)) by {
                if n < c {
                    assert(s[n] is Some);
                }
            }
            assert(roster_packed(d, c)) by {
                assert forall|i: int| 0 <= i < d.len() implies (#[trigger] d[i] is Some <==> i < c) by {
                    assert(d[i] == s[i]);
                }
            }
            lemma_roster_bytes_packed(d, c);
            assert(roster_bytes(s) =~= roster_bytes(d));
            assert forall|i: int| 0 <= i < c implies #[trigger] roster_bytes(s).subrange(
                8 * i,
                8 * i + 8,
            ) == character_bytes(s[i]->0) by {
                assert(d[i] == s[i]);
                assert(roster_bytes(d).subrange(8 * i, 8 * i + 8) == character_bytes(d[i]->0));
            }
        } else {
            assert(n < c);
            assert(c == s.len());
            assert(roster_packed(d, c - 1)) by {
                assert forall|i: int| 0 <= i < d.len() implies (#[trigger] d[i] is Some <==> i < c
                    - 1) by {
                    assert(d[i] == s[i]);
                }
            }
            lemma_roster_bytes_packed(d, c - 1);
            let rb = roster_bytes(s);
            let last = character_bytes(s.last()->0);
            assert(rb =~= roster_bytes(d) + last);
            assert forall|i: int| 0 <= i < c implies #[trigger] rb.subrange(8 * i, 8 * i + 8)
                == character_bytes(s[i]->0) by {
                if i < c - 1 {
                    assert(d[i] == s[i]);
                    assert(roster_bytes(d).subrange(8 * i, 8 * i + 8) == character_bytes(d[i]->0));
                    assert(rb.subrange(8 * i, 8 * i + 8) =~= roster_bytes(d).subrange(8 * i, 8 * i + 8));
                } else {
                    assert(rb.subrange(8 * i, 8 * i + 8) =~= last);
                }
            }
        }
    }
}

proof fn lemma_character_bytes_read_back(s: Seq<u8>, off: int, c: CharacterRecord)
    requires
        0 <= off,
        off + 8 <= s.len(),
        s.subrange(off, off + 8) == character_bytes(c),
    ensures
        character_at(s, off) == c,
{
    let cb = character_bytes(c);
    assert(s.subrange(off, off + 4) =~= cb.subrange(0, 4));
    assert(cb.subrange(0, 4) =~= be_u32(c.character_id));
    assert(s.subrange(off + 4, off + 6) =~= cb.subrange(4, 6));
    assert(cb.subrange(4, 6) =~= be_u16(c.level));
    assert(s[off + 6] == cb[6]);
    assert(s[off + 7] == cb[7]);
    lemma_u32_be_roundtrip(c.character_id);
    lemma_u16_be_roundtrip(c.level);
}

/// Hibernation round trip: the snapshot of a well-formed profile is accepted, holds every field
/// that hydration reads, and hydrates back into exactly that profile.
pub proof fn lemma_snapshot_roundtrip(p: PlayerProfile, epoch_sec: u64)
    requires
        p.wf(),
    ensures
        snapshot_accepted(snapshot_bytes(p, epoch_sec)),
        snapshot_readable(snapshot_bytes(p, epoch_sec)),
        forall|q: PlayerProfile| #[trigger] decoded_profile(q, snapshot_bytes(p, epoch_sec)) ==> q == p,
{
    let pl = snapshot_payload(p);
    let pre = payload_prefix(p);
    let rb = roster_bytes(p.roster@);
    let c = p.character_count as int;
    lemma_roster_bytes_packed(p.roster@, c);
    let h = snapshot_header(p.account_id, epoch_sec, pl);
    let s = snapshot_bytes(p, epoch_sec);
    assert(pre.len() == 27);
    assert(pl.len() == 27 + 8 * c);
    assert(h.len() == 32);
    assert(s.len() == 59 + 8 * c);
    assert(s.subrange(0, 4) =~= magic_bytes());
    assert(s.subrange(4, 6) =~= be_u16(1));
    assert(s.subrange(6, 14) =~= be_u64(p.account_id));
    assert(s.subrange(22, 26) =~= be_u32(pl.len() as u32));
    assert(s.subrange(26, 30) =~= be_u32(adler32(pl)));
    lemma_u16_be_roundtrip(1);
    lemma_u64_be_roundtrip(p.account_id);
    lemma_u32_be_roundtrip(pl.len() as u32);
    lemma_u32_be_roundtrip(adler32(pl));
    assert(recorded_payload_len(s) == pl.len());
    assert(s.subrange(32, 32 + pl.len() as int) =~= pl);
    assert(snapshot_accepted(s));
    assert(s[58] == p.character_count as u8);
    assert(announced_characters(s) == c);
    assert(snapshot_readable(s));
    assert(s.subrange(32, 36) =~= be_u32(p.player_level));
    assert(s.subrange(36, 44) =~= be_u64(p.premium_currency));
    assert(s.subrange(44, 52) =~= be_u64(p.free_currency));
    assert(s.subrange(52, 54) =~= be_u16(p.pity.standard_banner_pity));
    assert(s.subrange(54, 56) =~= be_u16(p.pity.limited_banner_pity));
    lemma_u32_be_roundtrip(p.player_level);
    lemma_u64_be_roundtrip(p.premium_currency);
    lemma_u64_be_roundtrip(p.free_currency);
    lemma_u16_be_roundtrip(p.pity.standard_banner_pity);
    lemma_u16_be_roundtrip(p.pity.limited_banner_pity);
    assert(s[56] == (if p.pity.is_guaranteed_rate_up { 1u8 } else { 0u8 }));
    assert(s[57] == p.pity.consecutive_4star_pity);
    assert forall|i: int| 0 <= i < c implies #[trigger] character_at(s, 59 + 8 * i) == p.roster@[i]->0 by {
        assert(rb.subrange(8 * i, 8 * i + 8) == character_bytes(p.roster@[i]->0));
        assert(s.subrange(59 + 8 * i, 59 + 8 * i + 8) =~= rb.subrange(8 * i, 8 * i + 8));
        lemma_character_bytes_read_back(s, 59 + 8 * i, p.roster@[i]->0);
    }
    assert forall|q: PlayerProfile| #[trigger] decoded_profile(q, s) implies q == p by {
        assert(q.roster@ =~= p.roster@) by {
            assert forall|i: int| 0 <= i < 32 implies q.roster@[i] == p.roster@[i] by {
                if i < c {
                    assert(character_at(s, 59 + 8 * i) == p.roster@[i]->0);
                }
            }
        }
        assert(q.roster =~= p.roster);
    }
}

} // verus!
