//! The stored form of the records: every field in declaration order, each
//! in the encoding of its type, a list behind the count of its entries. It
//! is the form that Borsh gives a record of these fields.

use vstd::prelude::*;
use crate::address::Address;
use crate::state::contest::{Contest, ContestResult, ContestStatus, ContestView};
use crate::state::player::Player;
use crate::wire::{
    get_address, get_i64, get_u32, get_u64, i64_bytes, lemma_concat_parts, lemma_integer_bytes, put_address, put_i64,
    put_u32, put_u64, u32_bytes, u64_bytes, lemma_subrange_join, option_i64_bytes, lemma_option_i64_bytes,
    put_option_i64,
};

verus! {

impl Player {
    /// The bytes under which a player is stored.
    pub open spec fn encoding(self) -> Seq<u8> {
        self.owner@ + u32_bytes(self.total_tests) + u32_bytes(self.best_wpm) + u32_bytes(self.average_wpm)
            + u32_bytes(self.best_accuracy) + u64_bytes(self.total_words_typed) + i64_bytes(self.created_at)
            + i64_bytes(self.last_activity)
    }

    /// Every player's stored form has the same length.
    pub proof fn lemma_encoding_len(self)
        ensures
            self.encoding().len() == Player::SIZE,
    {
        lemma_integer_bytes();
    }

    /// Players with the same stored form are the same player.
    pub proof fn lemma_encoding_injective(a: Player, b: Player)
        requires
            a.encoding() == b.encoding(),
        ensures
            a == b,
    {
        lemma_integer_bytes();
        let a1 = a.owner@;
        let a2 = a1 + u32_bytes(a.total_tests);
        let a3 = a2 + u32_bytes(a.best_wpm);
        let a4 = a3 + u32_bytes(a.average_wpm);
        let a5 = a4 + u32_bytes(a.best_accuracy);
        let a6 = a5 + u64_bytes(a.total_words_typed);
        let a7 = a6 + i64_bytes(a.created_at);
        let b1 = b.owner@;
        let b2 = b1 + u32_bytes(b.total_tests);
        let b3 = b2 + u32_bytes(b.best_wpm);
        let b4 = b3 + u32_bytes(b.average_wpm);
        let b5 = b4 + u32_bytes(b.best_accuracy);
        let b6 = b5 + u64_bytes(b.total_words_typed);
        let b7 = b6 + i64_bytes(b.created_at);
        lemma_concat_parts(a7, i64_bytes(a.last_activity), b7, i64_bytes(b.last_activity));
        lemma_concat_parts(a6, i64_bytes(a.created_at), b6, i64_bytes(b.created_at));
        lemma_concat_parts(a5, u64_bytes(a.total_words_typed), b5, u64_bytes(b.total_words_typed));
        lemma_concat_parts(a4, u32_bytes(a.best_accuracy), b4, u32_bytes(b.best_accuracy));
        lemma_concat_parts(a3, u32_bytes(a.average_wpm), b3, u32_bytes(b.average_wpm));
        lemma_concat_parts(a2, u32_bytes(a.best_wpm), b2, u32_bytes(b.best_wpm));
        lemma_concat_parts(a1, u32_bytes(a.total_tests), b1, u32_bytes(b.total_tests));
        Address::lemma_view_injective(a.owner, b.owner);
    }

    /// The player that `bytes` are the stored form of, if they are that of
    /// one.
    pub open spec fn stored(bytes: Seq<u8>) -> Option<Player> {
        if exists|p: Player| #[trigger] p.encoding() == bytes {
            Some(choose|p: Player| #[trigger] p.encoding() == bytes)
        } else {
            None
        }
    }

    /// What is stored as a player is read back as that player.
    pub proof fn lemma_round_trip(self)
        ensures
            Player::stored(self.encoding()) == Some(self),
    {
        Player::lemma_encoding_injective(self, Player::stored(self.encoding()).unwrap());
    }

    /// The stored form of this player.
    pub fn to_bytes(&self) -> (bytes: Vec<u8>)
        ensures
            bytes@ == self.encoding(),
            bytes@.len() == Player::SIZE,
    {
        let mut bytes: Vec<u8> = Vec::new();
        put_address(&mut bytes, &self.owner);
        assert(bytes@ =~= self.owner@);
        put_u32(&mut bytes, self.total_tests);
        put_u32(&mut bytes, self.best_wpm);
        put_u32(&mut bytes, self.average_wpm);
        put_u32(&mut bytes, self.best_accuracy);
        put_u64(&mut bytes, self.total_words_typed);
        put_i64(&mut bytes, self.created_at);
        put_i64(&mut bytes, self.last_activity);
        proof {
            self.lemma_encoding_len();
        }
        bytes
    }

    /// The player stored as `bytes`: any string of exactly `Player::SIZE` bytes is the
    /// stored form of one player, and no other string is that of any.
    pub fn try_from_slice(bytes: &[u8]) -> (r: Option<Player>)
        ensures
            match r {
                Some(player) => player.encoding() == bytes@,
                None => bytes@.len() != Player::SIZE,
            },
            r == Player::stored(bytes@),
    {
        if bytes.len() != Player::SIZE {
            proof {
                assert forall|p: Player| #[trigger] p.encoding() == bytes@ implies false by {
                    p.lemma_encoding_len();
                }
            }
            return None;
        }
        let player = Player {
            owner: get_address(bytes, 0),
            total_tests: get_u32(bytes, 32),
            best_wpm: get_u32(bytes, 36),
            average_wpm: get_u32(bytes, 40),
            best_accuracy: get_u32(bytes, 44),
            total_words_typed: get_u64(bytes, 48),
            created_at: get_i64(bytes, 56),
            last_activity: get_i64(bytes, 64),
        };
        proof {
            let s = bytes@;
            lemma_subrange_join(s, 0, 32, 36);
            lemma_subrange_join(s, 0, 36, 40);
            lemma_subrange_join(s, 0, 40, 44);
            lemma_subrange_join(s, 0, 44, 48);
            lemma_subrange_join(s, 0, 48, 56);
            lemma_subrange_join(s, 0, 56, 64);
            lemma_subrange_join(s, 0, 64, 72);
            assert(s.subrange(0, 72) =~= s);
            Player::lemma_encoding_injective(player, Player::stored(s).unwrap());
        }
        Some(player)
    }
}

impl ContestStatus {
    /// The byte under which a status is stored: its place in the order
    /// waiting, active, ended.
    pub open spec fn tag(self) -> u8 {
        match self {
            ContestStatus::Waiting => 0,
            ContestStatus::Active => 1,
            ContestStatus::Ended => 2,
        }
    }
}

impl ContestResult {
    /// The number of bytes a stored result takes.
    pub const SIZE: usize = 32 + 4 + 4 + 8 + 4;

    /// The bytes under which a result is stored.
    pub open spec fn encoding(self) -> Seq<u8> {
        self.player@ + u32_bytes(self.wpm) + u32_bytes(self.accuracy) + u64_bytes(self.time_taken) + u32_bytes(
            self.position,
        )
    }

    /// Every result's stored form has the same length.
    pub proof fn lemma_encoding_len(self)
        ensures
            self.encoding().len() == ContestResult::SIZE,
    {
        lemma_integer_bytes();
    }

    /// Results with the same stored form are the same result.
    pub proof fn lemma_encoding_injective(a: ContestResult, b: ContestResult)
        requires
            a.encoding() == b.encoding(),
        ensures
            a == b,
    {
        lemma_integer_bytes();
        let a1 = a.player@;
        let a2 = a1 + u32_bytes(a.wpm);
        let a3 = a2 + u32_bytes(a.accuracy);
        let a4 = a3 + u64_bytes(a.time_taken);
        let b1 = b.player@;
        let b2 = b1 + u32_bytes(b.wpm);
        let b3 = b2 + u32_bytes(b.accuracy);
        let b4 = b3 + u64_bytes(b.time_taken);
        lemma_concat_parts(a4, u32_bytes(a.position), b4, u32_bytes(b.position));
        lemma_concat_parts(a3, u64_bytes(a.time_taken), b3, u64_bytes(b.time_taken));
        lemma_concat_parts(a2, u32_bytes(a.accuracy), b2, u32_bytes(b.accuracy));
        lemma_concat_parts(a1, u32_bytes(a.wpm), b1, u32_bytes(b.wpm));
        Address::lemma_view_injective(a.player, b.player);
    }

    /// Appends the stored form of this result.
    pub(crate) fn put(&self, out: &mut Vec<u8>)
        ensures
            final(out)@ == old(out)@ + self.encoding(),
    {
        let ghost before = out@;
        put_address(out, &self.player);
        put_u32(out, self.wpm);
        put_u32(out, self.accuracy);
        put_u64(out, self.time_taken);
        put_u32(out, self.position);
        assert(out@ =~= before + self.encoding());
    }

    /// The result whose stored form stands at `at`.
    pub(crate) fn get(bytes: &[u8], at: usize) -> (result: ContestResult)
        requires
            at + ContestResult::SIZE <= bytes@.len(),
        ensures
            result.encoding() == bytes@.subrange(at as int, at + ContestResult::SIZE),
    {
        let _ = bytes.len();
        let result = ContestResult {
            player: get_address(bytes, at),
            wpm: get_u32(bytes, at + 32),
            accuracy: get_u32(bytes, at + 36),
            time_taken: get_u64(bytes, at + 40),
            position: get_u32(bytes, at + 48),
        };
        proof {
            let s = bytes@;
            let o = at as int;
            lemma_subrange_join(s, o, o + 32, o + 36);
            lemma_subrange_join(s, o, o + 36, o + 40);
            lemma_subrange_join(s, o, o + 40, o + 48);
            lemma_subrange_join(s, o, o + 48, o + 52);
        }
        result
    }
}

/// The stored form of a list of identities: one after the other.
pub open spec fn addresses_bytes(list: Seq<Address>) -> Seq<u8> {
    Seq::new(32 * list.len(), |i: int| list[i / 32]@[i % 32])
}

/// The stored form of a list of results: one after the other.
pub open spec fn results_bytes(list: Seq<ContestResult>) -> Seq<u8> {
    Seq::new(52 * list.len(), |i: int| list[i / 52].encoding()[i % 52])
}

/// One more identity in a list adds its bytes behind those of the list.
pub proof fn lemma_addresses_bytes_push(list: Seq<Address>, last: Address)
    ensures
        addresses_bytes(list.push(last)) == addresses_bytes(list) + last@,
{
    assert(addresses_bytes(list.push(last)) =~= addresses_bytes(list) + last@);
}

/// One more result in a list adds its bytes behind those of the list.
pub proof fn lemma_results_bytes_push(list: Seq<ContestResult>, last: ContestResult)
    ensures
        results_bytes(list.push(last)) == results_bytes(list) + last.encoding(),
{
    last.lemma_encoding_len();
    assert(results_bytes(list.push(last)) =~= results_bytes(list) + last.encoding());
}

/// Lists of identities of one length and one stored form are the same list.
pub proof fn lemma_addresses_bytes_injective(a: Seq<Address>, b: Seq<Address>)
    requires
        a.len() == b.len(),
        addresses_bytes(a) == addresses_bytes(b),
    ensures
        a == b,
{
    assert forall|k: int| 0 <= k < a.len() implies a[k] == b[k] by {
        assert forall|j: int| 0 <= j < 32 implies a[k]@[j] == b[k]@[j] by {
            let i = 32 * k + j;
            assert(addresses_bytes(a)[i] == a[i / 32]@[i % 32]);
            assert(addresses_bytes(b)[i] == b[i / 32]@[i % 32]);
        }
        assert(a[k]@ =~= b[k]@);
        Address::lemma_view_injective(a[k], b[k]);
    }
    assert(a =~= b);
}

/// Lists of results of one length and one stored form are the same list.
pub proof fn lemma_results_bytes_injective(a: Seq<ContestResult>, b: Seq<ContestResult>)
    requires
        a.len() == b.len(),
        results_bytes(a) == results_bytes(b),
    ensures
        a == b,
{
    assert forall|k: int| 0 <= k < a.len() implies a[k] == b[k] by {
        a[k].lemma_encoding_len();
        b[k].lemma_encoding_len();
        assert forall|j: int| 0 <= j < 52 implies a[k].encoding()[j] == b[k].encoding()[j] by {
            let i = 52 * k + j;
            assert(results_bytes(a)[i] == a[i / 52].encoding()[i % 52]);
            assert(results_bytes(b)[i] == b[i / 52].encoding()[i % 52]);
        }
        assert(a[k].encoding() =~= b[k].encoding());
        ContestResult::lemma_encoding_injective(a[k], b[k]);
    }
    assert(a =~= b);
}

impl ContestView {
    /// Whether the lists are short enough for their counts to be stored.
    pub open spec fn encodable(self) -> bool {
        self.participants.len() <= u32::MAX && self.results.len() <= u32::MAX
    }

    /// The bytes under which a contest is stored.
    pub open spec fn encoding(self) -> Seq<u8> {
        self.creator@ + u32_bytes(self.text_id) + u64_bytes(self.duration) + seq![self.status.tag()] + u32_bytes(
            self.participants.len() as u32,
        ) + addresses_bytes(self.participants) + u32_bytes(self.results.len() as u32) + results_bytes(self.results)
            + i64_bytes(self.created_at) + option_i64_bytes(self.started_at) + option_i64_bytes(self.ended_at)
            + seq![self.max_participants]
    }

    /// Where the count of the results stands in the stored form.
    pub open spec fn results_at(self) -> int {
        49 + 32 * (self.participants.len() as int)
    }

    /// Where the time of creation stands in the stored form.
    pub open spec fn created_at_at(self) -> int {
        self.results_at() + 4 + 52 * self.results.len()
    }

    /// Where the optional time of the end stands in the stored form.
    pub open spec fn ended_at_at(self) -> int {
        self.created_at_at() + 8 + option_i64_bytes(self.started_at).len()
    }

    /// The length of the stored form.
    pub open spec fn encoded_len(self) -> int {
        self.ended_at_at() + option_i64_bytes(self.ended_at).len() + 1
    }

    /// The contest whose stored form `bytes` begin with, if they begin with
    /// that of one.
    pub open spec fn stored(bytes: Seq<u8>) -> Option<ContestView> {
        if exists|v: ContestView| v.encodable() && (#[trigger] v.encoding()).is_prefix_of(bytes) {
            Some(choose|v: ContestView| v.encodable() && (#[trigger] v.encoding()).is_prefix_of(bytes))
        } else {
            None
        }
    }

    /// Whether `bytes` hold this contest from their start on: every field at
    /// its place.
    pub open spec fn stored_in(self, bytes: Seq<u8>) -> bool {
        &&& self.encoded_len() <= bytes.len()
        &&& bytes.subrange(0, 32) == self.creator@
        &&& bytes.subrange(32, 36) == u32_bytes(self.text_id)
        &&& bytes.subrange(36, 44) == u64_bytes(self.duration)
        &&& bytes[44] == self.status.tag()
        &&& bytes.subrange(45, 49) == u32_bytes(self.participants.len() as u32)
        &&& bytes.subrange(49, self.results_at()) == addresses_bytes(self.participants)
        &&& bytes.subrange(self.results_at(), self.results_at() + 4) == u32_bytes(self.results.len() as u32)
        &&& bytes.subrange(self.results_at() + 4, self.created_at_at()) == results_bytes(self.results)
        &&& bytes.subrange(self.created_at_at(), self.created_at_at() + 8) == i64_bytes(self.created_at)
        &&& bytes.subrange(self.created_at_at() + 8, self.ended_at_at()) == option_i64_bytes(self.started_at)
        &&& bytes.subrange(self.ended_at_at(), self.encoded_len() - 1) == option_i64_bytes(self.ended_at)
        &&& bytes[self.encoded_len() - 1] == self.max_participants
    }

    /// The stored form of a contest is as long as its fields are together.
    pub proof fn lemma_encoding_len(self)
        ensures
            self.encoding().len() == self.encoded_len(),
            self.encoded_len() >= 64 + 32 * self.participants.len() + 52 * self.results.len(),
    {
        lemma_integer_bytes();
        lemma_option_i64_bytes(self.started_at);
        lemma_option_i64_bytes(self.ended_at);
    }

    /// A well-formed contest that admits no more participants than a new
    /// contest does fits the slot set aside for a contest.
    pub proof fn lemma_fits_slot(self)
        requires
            self.wf(),
            self.max_participants <= crate::state::contest::DEFAULT_MAX_PARTICIPANTS,
        ensures
            self.encodable(),
            self.encoding().len() <= Contest::SIZE,
    {
        self.lemma_encoding_len();
        lemma_option_i64_bytes(self.started_at);
        lemma_option_i64_bytes(self.ended_at);
    }

    /// Bytes begin with the stored form of a contest exactly when they hold
    /// every field of it at its place.
    pub proof fn lemma_stored_in(self, bytes: Seq<u8>)
        ensures
            self.encoding().is_prefix_of(bytes) <==> self.stored_in(bytes),
    {
        lemma_integer_bytes();
        lemma_option_i64_bytes(self.started_at);
        lemma_option_i64_bytes(self.ended_at);
        self.lemma_encoding_len();
        let e = self.encoding();
        let n = self.encoded_len();
        let r = self.results_at();
        let c = self.created_at_at();
        let d = self.ended_at_at();
        assert(e.subrange(0, 32) =~= self.creator@);
        assert(e.subrange(32, 36) =~= u32_bytes(self.text_id));
        assert(e.subrange(36, 44) =~= u64_bytes(self.duration));
        assert(e[44] == self.status.tag());
        assert(e.subrange(45, 49) =~= u32_bytes(self.participants.len() as u32));
        assert(e.subrange(49, r) =~= addresses_bytes(self.participants));
        assert(e.subrange(r, r + 4) =~= u32_bytes(self.results.len() as u32));
        assert(e.subrange(r + 4, c) =~= results_bytes(self.results));
        assert(e.subrange(c, c + 8) =~= i64_bytes(self.created_at));
        assert(e.subrange(c + 8, d) =~= option_i64_bytes(self.started_at));
        assert(e.subrange(d, n - 1) =~= option_i64_bytes(self.ended_at));
        assert(e[n - 1] == self.max_participants);
        assert(self.stored_in(e));
        if e.is_prefix_of(bytes) {
            let b = bytes.subrange(0, n);
            assert(b =~= e);
            assert(bytes.subrange(0, 32) =~= b.subrange(0, 32));
            assert(bytes.subrange(32, 36) =~= b.subrange(32, 36));
            assert(bytes.subrange(36, 44) =~= b.subrange(36, 44));
            assert(bytes.subrange(45, 49) =~= b.subrange(45, 49));
            assert(bytes.subrange(49, r) =~= b.subrange(49, r));
            assert(bytes.subrange(r, r + 4) =~= b.subrange(r, r + 4));
            assert(bytes.subrange(r + 4, c) =~= b.subrange(r + 4, c));
            assert(bytes.subrange(c, c + 8) =~= b.subrange(c, c + 8));
            assert(bytes.subrange(c + 8, d) =~= b.subrange(c + 8, d));
            assert(bytes.subrange(d, n - 1) =~= b.subrange(d, n - 1));
        }
        if self.stored_in(bytes) {
            lemma_subrange_join(bytes, 0, 32, 36);
            lemma_subrange_join(bytes, 0, 36, 44);
            assert(bytes.subrange(44, 45) =~= seq![self.status.tag()]);
            lemma_subrange_join(bytes, 0, 44, 45);
            lemma_subrange_join(bytes, 0, 45, 49);
            lemma_subrange_join(bytes, 0, 49, r);
            lemma_subrange_join(bytes, 0, r, r + 4);
            lemma_subrange_join(bytes, 0, r + 4, c);
            lemma_subrange_join(bytes, 0, c, c + 8);
            lemma_subrange_join(bytes, 0, c + 8, d);
            lemma_subrange_join(bytes, 0, d, n - 1);
            assert(bytes.subrange(n - 1, n) =~= seq![self.max_participants]);
            lemma_subrange_join(bytes, 0, n - 1, n);
            assert(bytes.subrange(0, n) == e);
        }
    }
}

/// The identities whose stored forms stand one after the other from `at` on.
fn get_addresses(bytes: &[u8], at: usize, count: usize) -> (list: Vec<Address>)
    requires
        at + 32 * count <= bytes@.len(),
    ensures
        list@.len() == count,
        addresses_bytes(list@) == bytes@.subrange(at as int, at + 32 * count),
{
    let _ = bytes.len();
    let mut list: Vec<Address> = Vec::new();
    let mut i: usize = 0;
    assert(addresses_bytes(list@) =~= bytes@.subrange(at as int, at + 32 * 0));
    while i < count
        invariant
            i <= count,
            at + 32 * count <= bytes.len(),
            list@.len() == i,
            addresses_bytes(list@) == bytes@.subrange(at as int, at + 32 * i),
        decreases count - i,
    {
        let next = get_address(bytes, at + 32 * i);
        proof {
            lemma_addresses_bytes_push(list@, next);
            lemma_subrange_join(bytes@, at as int, at + 32 * i, at + 32 * i + 32);
        }
        list.push(next);
        i += 1;
    }
    list
}

/// The results whose stored forms stand one after the other from `at` on.
fn get_results(bytes: &[u8], at: usize, count: usize) -> (list: Vec<ContestResult>)
    requires
        at + 52 * count <= bytes@.len(),
    ensures
        list@.len() == count,
        results_bytes(list@) == bytes@.subrange(at as int, at + 52 * count),
{
    let _ = bytes.len();
    let mut list: Vec<ContestResult> = Vec::new();
    let mut i: usize = 0;
    assert(results_bytes(list@) =~= bytes@.subrange(at as int, at + 52 * 0));
    while i < count
        invariant
            i <= count,
            at + 52 * count <= bytes.len(),
            list@.len() == i,
            results_bytes(list@) == bytes@.subrange(at as int, at + 52 * i),
        decreases count - i,
    {
        let next = ContestResult::get(bytes, at + 52 * i);
        proof {
            lemma_results_bytes_push(list@, next);
            lemma_subrange_join(bytes@, at as int, at + 52 * i, at + 52 * i + 52);
        }
        list.push(next);
        i += 1;
    }
    list
}

/// Whether `bytes` hold the stored form of the optional time `x` at `at`.
pub open spec fn option_i64_stored_at(x: Option<i64>, bytes: Seq<u8>, at: int) -> bool {
    at + option_i64_bytes(x).len() <= bytes.len() && bytes.subrange(at, at + option_i64_bytes(x).len())
        == option_i64_bytes(x)
}

/// The optional time whose stored form stands at `at`, if one does.
fn get_option_i64(bytes: &[u8], at: usize) -> (r: Option<Option<i64>>)
    requires
        at <= bytes@.len(),
    ensures
        match r {
            Some(x) => option_i64_stored_at(x, bytes@, at as int),
            None => forall|x: Option<i64>| !option_i64_stored_at(x, bytes@, at as int),
        },
{
    let n = bytes.len();
    proof {
        lemma_integer_bytes();
        assert forall|x: Option<i64>| option_i64_stored_at(x, bytes@, at as int) implies at < n && bytes@[at as int]
            == (if x.is_some() {
            1u8
        } else {
            0u8
        }) && (x.is_some() ==> at + 9 <= n) by {
            lemma_option_i64_bytes(x);
            assert(bytes@.subrange(at as int, at + option_i64_bytes(x).len())[0] == option_i64_bytes(x)[0]);
        }
    }
    if n - at < 1 {
        return None;
    }
    let tag = bytes[at];
    if tag == 0 {
        assert(bytes@.subrange(at as int, at + 1) =~= option_i64_bytes(None));
        Some(None)
    } else if tag == 1 {
        if n - at < 9 {
            return None;
        }
        let t = get_i64(bytes, at + 1);
        proof {
            assert(bytes@.subrange(at as int, at + 1) =~= seq![1u8]);
            lemma_subrange_join(bytes@, at as int, at + 1, at + 9);
        }
        Some(Some(t))
    } else {
        None
    }
}

impl ContestView {
    /// The same bytes do not begin with the stored forms of two contests.
    pub proof fn lemma_stored_unique(a: ContestView, b: ContestView, bytes: Seq<u8>)
        requires
            a.encodable(),
            b.encodable(),
            a.encoding().is_prefix_of(bytes),
            b.encoding().is_prefix_of(bytes),
        ensures
            a == b,
    {
        lemma_integer_bytes();
        a.lemma_stored_in(bytes);
        b.lemma_stored_in(bytes);
        Address::lemma_view_injective(a.creator, b.creator);
        assert(a.participants.len() == b.participants.len());
        lemma_addresses_bytes_injective(a.participants, b.participants);
        assert(a.results.len() == b.results.len());
        lemma_results_bytes_injective(a.results, b.results);
        let c = a.created_at_at();
        lemma_option_i64_bytes(a.started_at);
        lemma_option_i64_bytes(b.started_at);
        assert(bytes.subrange(c + 8, a.ended_at_at())[0] == bytes[c + 8]);
        assert(bytes.subrange(c + 8, b.ended_at_at())[0] == bytes[c + 8]);
        assert(a.started_at.is_some() == b.started_at.is_some());
        assert(a.started_at == b.started_at);
        let d = a.ended_at_at();
        lemma_option_i64_bytes(a.ended_at);
        lemma_option_i64_bytes(b.ended_at);
        assert(bytes.subrange(d, a.encoded_len() - 1)[0] == bytes[d]);
        assert(bytes.subrange(d, b.encoded_len() - 1)[0] == bytes[d]);
        assert(a.ended_at.is_some() == b.ended_at.is_some());
        assert(a.ended_at == b.ended_at);
    }
}

impl ContestView {
    /// What is stored as a contest, whatever bytes follow it in its slot, is
    /// read back as that contest.
    pub proof fn lemma_round_trip(self, rest: Seq<u8>)
        requires
            self.encodable(),
        ensures
            ContestView::stored(self.encoding() + rest) == Some(self),
    {
        let bytes = self.encoding() + rest;
        assert(bytes.subrange(0, self.encoding().len() as int) =~= self.encoding());
        assert(self.encoding().is_prefix_of(bytes));
        ContestView::lemma_stored_unique(self, ContestView::stored(bytes).unwrap(), bytes);
    }
}

impl ContestStatus {
    /// The byte under which this status is stored.
    pub(crate) fn tag_byte(self) -> (tag: u8)
        ensures
            tag == self.tag(),
    {
        match self {
            ContestStatus::Waiting => 0,
            ContestStatus::Active => 1,
            ContestStatus::Ended => 2,
        }
    }
}

impl Contest {
    /// The stored form of this contest, or `None` where a list has more
    /// entries than a stored count can say.
    pub fn to_bytes(&self) -> (r: Option<Vec<u8>>)
        ensures
            match r {
                Some(bytes) => self@.encodable() && bytes@ == self@.encoding(),
                None => !self@.encodable(),
            },
    {
        if self.participants.len() > u32::MAX as usize || self.results.len() > u32::MAX as usize {
            return None;
        }
        let mut out: Vec<u8> = Vec::new();
        put_address(&mut out, &self.creator);
        assert(out@ =~= self.creator@);
        put_u32(&mut out, self.text_id);
        put_u64(&mut out, self.duration);
        out.push(self.status.tag_byte());
        put_u32(&mut out, self.participants.len() as u32);
        let ghost head = out@;
        assert(head =~= self.creator@ + u32_bytes(self.text_id) + u64_bytes(self.duration) + seq![self.status.tag()]
            + u32_bytes(self.participants.len() as u32));
        let mut i: usize = 0;
        assert(out@ =~= head + addresses_bytes(self.participants@.take(0)));
        while i < self.participants.len()
            invariant
                i <= self.participants.len(),
                out@ == head + addresses_bytes(self.participants@.take(i as int)),
            decreases self.participants.len() - i,
        {
            proof {
                lemma_addresses_bytes_push(self.participants@.take(i as int), self.participants@[i as int]);
                assert(self.participants@.take(i + 1) =~= self.participants@.take(i as int).push(
                    self.participants@[i as int],
                ));
            }
            put_address(&mut out, &self.participants[i]);
            assert(out@ =~= head + addresses_bytes(self.participants@.take(i + 1)));
            i += 1;
        }
        assert(self.participants@.take(self.participants@.len() as int) =~= self.participants@);
        put_u32(&mut out, self.results.len() as u32);
        let ghost middle = out@;
        let mut j: usize = 0;
        assert(out@ =~= middle + results_bytes(self.results@.take(0)));
        while j < self.results.len()
            invariant
                j <= self.results.len(),
                out@ == middle + results_bytes(self.results@.take(j as int)),
            decreases self.results.len() - j,
        {
            proof {
                lemma_results_bytes_push(self.results@.take(j as int), self.results@[j as int]);
                assert(self.results@.take(j + 1) =~= self.results@.take(j as int).push(self.results@[j as int]));
            }
            self.results[j].put(&mut out);
            assert(out@ =~= middle + results_bytes(self.results@.take(j + 1)));
            j += 1;
        }
        assert(self.results@.take(self.results@.len() as int) =~= self.results@);
        put_i64(&mut out, self.created_at);
        put_option_i64(&mut out, self.started_at);
        put_option_i64(&mut out, self.ended_at);
        out.push(self.max_participants);
        assert(out@ =~= self@.encoding());
        Some(out)
    }

    /// The contest whose stored form `bytes` begin with; what follows it in
    /// `bytes` is not looked at. `None` where `bytes` begin with the stored
    /// form of no contest.
    pub fn try_from_slice(bytes: &[u8]) -> (r: Option<Contest>)
        ensures
            match r {
                Some(contest) => contest@.encodable() && contest@.encoding().is_prefix_of(bytes@),
                None => forall|v: ContestView| v.encodable() ==> !(#[trigger] v.encoding()).is_prefix_of(bytes@),
            },
            match r {
                Some(contest) => ContestView::stored(bytes@) == Some(contest@),
                None => ContestView::stored(bytes@).is_none(),
            },
    {
        let r = Self::read(bytes);
        proof {
            if r.is_some() {
                ContestView::lemma_stored_unique(r.unwrap()@, ContestView::stored(bytes@).unwrap(), bytes@);
            }
        }
        r
    }

    /// Reads a contest field by field from the start of `bytes`.
    #[verifier::rlimit(30)]
    fn read(bytes: &[u8]) -> (r: Option<Contest>)
        ensures
            match r {
                Some(contest) => contest@.encodable() && contest@.encoding().is_prefix_of(bytes@),
                None => forall|v: ContestView| v.encodable() ==> !(#[trigger] v.encoding()).is_prefix_of(bytes@),
            },
    {
        let n = bytes.len();
        if n < 49 {
            proof {
                assert forall|v: ContestView| (#[trigger] v.encoding()).is_prefix_of(bytes@) implies false by {
                    v.lemma_encoding_len();
                }
            }
            return None;
        }
        let creator = get_address(bytes, 0);
        let text_id = get_u32(bytes, 32);
        let duration = get_u64(bytes, 36);
        let status = match bytes[44] {
            0 => ContestStatus::Waiting,
            1 => ContestStatus::Active,
            2 => ContestStatus::Ended,
            _ => {
                proof {
                    assert forall|v: ContestView| (#[trigger] v.encoding()).is_prefix_of(bytes@) implies false by {
                        v.lemma_stored_in(bytes@);
                    }
                }
                return None;
            },
        };
        let joined = get_u32(bytes, 45) as usize;
        if joined > (n - 49) / 32 {
            proof {
                assert forall|v: ContestView| v.encodable() && (#[trigger] v.encoding()).is_prefix_of(
                    bytes@,
                ) implies false by {
                    lemma_lists_stored(v, bytes@, joined as int, 0);
                }
            }
            return None;
        }
        let participants = get_addresses(bytes, 49, joined);
        let results_at: usize = 49 + 32 * joined;
        if n - results_at < 4 {
            proof {
                assert forall|v: ContestView| v.encodable() && (#[trigger] v.encoding()).is_prefix_of(
                    bytes@,
                ) implies false by {
                    lemma_lists_stored(v, bytes@, joined as int, 0);
                }
            }
            return None;
        }
        let submitted = get_u32(bytes, results_at) as usize;
        if submitted > (n - results_at - 4) / 52 || n - results_at - 4 - 52 * submitted < 8 {
            proof {
                assert forall|v: ContestView| v.encodable() && (#[trigger] v.encoding()).is_prefix_of(
                    bytes@,
                ) implies false by {
                    lemma_lists_stored(v, bytes@, joined as int, submitted as int);
                }
            }
            return None;
        }
        let results = get_results(bytes, results_at + 4, submitted);
        let created_at_at: usize = results_at + 4 + 52 * submitted;
        let created_at = get_i64(bytes, created_at_at);
        let started_at = match get_option_i64(bytes, created_at_at + 8) {
            Some(t) => t,
            None => {
                proof {
                    assert forall|v: ContestView| v.encodable() && (#[trigger] v.encoding()).is_prefix_of(
                        bytes@,
                    ) implies false by {
                        lemma_lists_stored(v, bytes@, joined as int, submitted as int);
                        lemma_times_stored(v, bytes@);
                    }
                }
                return None;
            },
        };
        proof {
            lemma_option_i64_bytes(started_at);
        }
        let ended_at_at: usize = created_at_at + 8 + (if started_at.is_some() {
            9
        } else {
            1
        });
        let ended_at = match get_option_i64(bytes, ended_at_at) {
            Some(t) => t,
            None => {
                proof {
                    assert forall|v: ContestView| v.encodable() && (#[trigger] v.encoding()).is_prefix_of(
                        bytes@,
                    ) implies false by {
                        lemma_lists_stored(v, bytes@, joined as int, submitted as int);
                        lemma_times_stored(v, bytes@);
                        lemma_option_i64_stored_unique(v.started_at, started_at, bytes@, created_at_at + 8);
                    }
                }
                return None;
            },
        };
        proof {
            lemma_option_i64_bytes(ended_at);
        }
        let last: usize = ended_at_at + (if ended_at.is_some() {
            9
        } else {
            1
        });
        if n - last < 1 {
            proof {
                assert forall|v: ContestView| v.encodable() && (#[trigger] v.encoding()).is_prefix_of(
                    bytes@,
                ) implies false by {
                    lemma_lists_stored(v, bytes@, joined as int, submitted as int);
                    lemma_times_stored(v, bytes@);
                    lemma_option_i64_stored_unique(v.started_at, started_at, bytes@, created_at_at + 8);
                    lemma_option_i64_stored_unique(v.ended_at, ended_at, bytes@, ended_at_at as int);
                }
            }
            return None;
        }
        let contest = Contest {
            creator,
            text_id,
            duration,
            status,
            participants,
            results,
            created_at,
            started_at,
            ended_at,
            max_participants: bytes[last],
        };
        proof {
            assert(contest@.stored_in(bytes@));
            contest@.lemma_stored_in(bytes@);
        }
        Some(contest)
    }
}

/// Bytes that begin with the stored form of `v` hold the counts of its lists
/// where `joined` and `submitted` were read, so these are the lengths of its
/// lists, and the bytes are long enough for them.
proof fn lemma_lists_stored(v: ContestView, bytes: Seq<u8>, joined: int, submitted: int)
    requires
        v.encodable(),
        v.encoding().is_prefix_of(bytes),
        0 <= joined <= u32::MAX,
        0 <= submitted <= u32::MAX,
        bytes.len() >= 49,
        u32_bytes(joined as u32) == bytes.subrange(45, 49),
    ensures
        v.participants.len() == joined,
        bytes.len() >= 64 + 32 * joined + 52 * v.results.len(),
        u32_bytes(submitted as u32) == bytes.subrange(49 + 32 * joined, 53 + 32 * joined) ==> v.results.len()
            == submitted,
{
    lemma_integer_bytes();
    v.lemma_stored_in(bytes);
    v.lemma_encoding_len();
}

/// Bytes that begin with the stored form of `v` hold its optional times at
/// their places.
proof fn lemma_times_stored(v: ContestView, bytes: Seq<u8>)
    requires
        v.encoding().is_prefix_of(bytes),
    ensures
        option_i64_stored_at(v.started_at, bytes, v.created_at_at() + 8),
        option_i64_stored_at(v.ended_at, bytes, v.ended_at_at()),
        v.ended_at_at() + option_i64_bytes(v.ended_at).len() < bytes.len(),
{
    v.lemma_stored_in(bytes);
}

/// At one place bytes hold the stored form of one optional time at most.
proof fn lemma_option_i64_stored_unique(x: Option<i64>, y: Option<i64>, bytes: Seq<u8>, at: int)
    requires
        0 <= at,
        option_i64_stored_at(x, bytes, at),
        option_i64_stored_at(y, bytes, at),
    ensures
        x == y,
{
    lemma_integer_bytes();
    lemma_option_i64_bytes(x);
    lemma_option_i64_bytes(y);
    assert(bytes.subrange(at, at + option_i64_bytes(x).len())[0] == bytes[at]);
    assert(bytes.subrange(at, at + option_i64_bytes(y).len())[0] == bytes[at]);
    if x.is_some() {
        assert(bytes.subrange(at, at + 9).subrange(1, 9) =~= bytes.subrange(at + 1, at + 9));
    }
}

} // verus!
