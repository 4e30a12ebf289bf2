//! Match records, their total order by full field comparison, and the
//! ordered, deduplicating aggregate that merges records across pages.

use vstd::prelude::*;
use crate::enums::{Character, Floor, Winner};
use crate::text::lossy_decode_of;
use crate::text::lossy_string;
use crate::timestamp::Timestamp;

verus! {

/// One side of a match: numeric id, raw name bytes as found on the wire, and
/// the character played. The name text is the lossy UTF-8 decoding of the
/// bytes, available through `name_text`.
#[derive(Debug)]
pub struct Player {
    pub id: u64,
    pub name: Vec<u8>,
    pub character: Character,
}

/// Mathematical image of a `Player`.
#[verifier::ext_equal]
pub struct PlayerV {
    pub id: u64,
    pub name: Seq<u8>,
    pub character: Character,
}

impl View for Player {
    type V = PlayerV;

    open spec fn view(&self) -> PlayerV {
        PlayerV { id: self.id, name: self.name@, character: self.character }
    }
}

impl Player {
    /// The player name as text, lossy-decoded from the raw name bytes.
    pub fn name_text(&self) -> (r: String)
        ensures
            r@ == lossy_decode_of(self.name@),
    {
        lossy_string(&self.name)
    }
}

/// One decoded match record. Immutable once constructed; built only by the
/// record assembler.
#[derive(Debug)]
pub struct Match {
    pub floor: Floor,
    pub timestamp: Timestamp,
    pub players: (Player, Player),
    pub winner: Winner,
}

/// Mathematical image of a `Match`.
#[verifier::ext_equal]
pub struct MatchV {
    pub floor: Floor,
    pub timestamp: Timestamp,
    pub players: (PlayerV, PlayerV),
    pub winner: Winner,
}

impl View for Match {
    type V = MatchV;

    open spec fn view(&self) -> MatchV {
        MatchV {
            floor: self.floor,
            timestamp: self.timestamp,
            players: (self.players.0@, self.players.1@),
            winner: self.winner,
        }
    }
}

impl Match {
    pub fn timestamp(&self) -> (r: &Timestamp)
        ensures
            r == self.timestamp,
    {
        &self.timestamp
    }
}

/// Strict lexicographic order on byte sequences.
pub open spec fn bytes_lt(a: Seq<u8>, b: Seq<u8>) -> bool
    decreases a.len(),
{
    if b.len() == 0 {
        false
    } else if a.len() == 0 {
        true
    } else if a[0] < b[0] {
        true
    } else if a[0] > b[0] {
        false
    } else {
        bytes_lt(a.drop_first(), b.drop_first())
    }
}

/// Chronological order on timestamps, by field.
pub open spec fn ts_lt(a: Timestamp, b: Timestamp) -> bool {
    ||| a.year < b.year
    ||| (a.year == b.year && a.month < b.month)
    ||| (a.year == b.year && a.month == b.month && a.day < b.day)
    ||| (a.year == b.year && a.month == b.month && a.day == b.day && a.hour < b.hour)
    ||| (a.year == b.year && a.month == b.month && a.day == b.day && a.hour == b.hour && a.minute
        < b.minute)
    ||| (a.year == b.year && a.month == b.month && a.day == b.day && a.hour == b.hour && a.minute
        == b.minute && a.second < b.second)
}

/// Order on players: id, then name bytes, then character code.
pub open spec fn player_lt(a: PlayerV, b: PlayerV) -> bool {
    ||| a.id < b.id
    ||| (a.id == b.id && bytes_lt(a.name, b.name))
    ||| (a.id == b.id && a.name == b.name && a.character.code() < b.character.code())
}

/// Total order on records by their full field set: floor, then timestamp,
/// then each player, then winner.
pub open spec fn match_lt(a: MatchV, b: MatchV) -> bool {
    ||| a.floor.code() < b.floor.code()
    ||| (a.floor == b.floor && ts_lt(a.timestamp, b.timestamp))
    ||| (a.floor == b.floor && a.timestamp == b.timestamp && player_lt(a.players.0, b.players.0))
    ||| (a.floor == b.floor && a.timestamp == b.timestamp && a.players.0 == b.players.0
        && player_lt(a.players.1, b.players.1))
    ||| (a.floor == b.floor && a.timestamp == b.timestamp && a.players.0 == b.players.0
        && a.players.1 == b.players.1 && a.winner.code() < b.winner.code())
}

/// `bytes_lt` is a strict total order: for any two sequences exactly one of
/// the three relations holds.
pub proof fn lemma_bytes_lt_trichotomy(a: Seq<u8>, b: Seq<u8>)
    ensures
        bytes_lt(a, b) ==> !bytes_lt(b, a) && a != b,
        !bytes_lt(a, b) && !bytes_lt(b, a) ==> a == b,
    decreases a.len(),
{
    if b.len() == 0 || a.len() == 0 {
        if a.len() == 0 && b.len() == 0 {
            assert(a =~= b);
        }
    } else {
        lemma_bytes_lt_trichotomy(a.drop_first(), b.drop_first());
        if !bytes_lt(a, b) && !bytes_lt(b, a) {
            assert(a[0] == b[0]);
            assert(a.drop_first() == b.drop_first());
            assert forall|k: int| 0 <= k < a.len() implies a[k] == b[k] by {
                if k > 0 {
                    assert(a.drop_first()[k - 1] == a[k]);
                    assert(b.drop_first()[k - 1] == b[k]);
                }
            }
            assert(a =~= b);
        }
        if bytes_lt(a, b) && a == b {
            assert(a.drop_first() == b.drop_first());
        }
    }
}

pub proof fn lemma_bytes_lt_trans(a: Seq<u8>, b: Seq<u8>, c: Seq<u8>)
    requires
        bytes_lt(a, b),
        bytes_lt(b, c),
    ensures
        bytes_lt(a, c),
    decreases a.len(),
{
    if a.len() > 0 && b.len() > 0 && c.len() > 0 {
        if a[0] == b[0] && b[0] == c[0] {
            lemma_bytes_lt_trans(a.drop_first(), b.drop_first(), c.drop_first());
        }
    }
}

/// `match_lt` relates two distinct records one way round exactly, and never
/// relates a record to itself.
pub proof fn lemma_match_lt_trichotomy(a: MatchV, b: MatchV)
    ensures
        match_lt(a, b) ==> !match_lt(b, a) && a != b,
        !match_lt(a, b) && !match_lt(b, a) ==> a == b,
{
    lemma_bytes_lt_trichotomy(a.players.0.name, b.players.0.name);
    lemma_bytes_lt_trichotomy(a.players.1.name, b.players.1.name);
    if !match_lt(a, b) && !match_lt(b, a) {
        assert(a.floor == b.floor) by {
            if a.floor.code() != b.floor.code() {
            } else {
            }
        }
        assert(a.players.0 =~= b.players.0);
        assert(a.players.1 =~= b.players.1);
        assert(a.winner == b.winner);
        assert(a =~= b);
    }
}

pub proof fn lemma_match_lt_trans(a: MatchV, b: MatchV, c: MatchV)
    requires
        match_lt(a, b),
        match_lt(b, c),
    ensures
        match_lt(a, c),
{
    if a.players.0.id == b.players.0.id && b.players.0.id == c.players.0.id {
        if bytes_lt(a.players.0.name, b.players.0.name) && bytes_lt(
            b.players.0.name,
            c.players.0.name,
        ) {
            lemma_bytes_lt_trans(a.players.0.name, b.players.0.name, c.players.0.name);
        }
    }
    if a.players.1.id == b.players.1.id && b.players.1.id == c.players.1.id {
        if bytes_lt(a.players.1.name, b.players.1.name) && bytes_lt(
            b.players.1.name,
            c.players.1.name,
        ) {
            lemma_bytes_lt_trans(a.players.1.name, b.players.1.name, c.players.1.name);
        }
    }
}

/// When the first `i` bytes agree, the order is decided by the tails.
proof fn lemma_bytes_lt_common_prefix(a: Seq<u8>, b: Seq<u8>, i: int)
    requires
        0 <= i <= a.len(),
        i <= b.len(),
        a.subrange(0, i) == b.subrange(0, i),
    ensures
        bytes_lt(a, b) == bytes_lt(a.skip(i), b.skip(i)),
    decreases i,
{
    if i == 0 {
        assert(a.skip(0) =~= a);
        assert(b.skip(0) =~= b);
    } else {
        assert(a[0] == b[0]) by {
            assert(a.subrange(0, i)[0] == a[0]);
            assert(b.subrange(0, i)[0] == b[0]);
        }
        assert(a.drop_first().subrange(0, i - 1) =~= b.drop_first().subrange(0, i - 1)) by {
            assert forall|k: int| 0 <= k < i - 1 implies #[trigger] a.drop_first().subrange(
                0,
                i - 1,
            )[k] == b.drop_first().subrange(0, i - 1)[k] by {
                assert(a.subrange(0, i)[k + 1] == a[k + 1]);
                assert(b.subrange(0, i)[k + 1] == b[k + 1]);
            }
        }
        lemma_bytes_lt_common_prefix(a.drop_first(), b.drop_first(), i - 1);
        assert(a.drop_first().skip(i - 1) =~= a.skip(i));
        assert(b.drop_first().skip(i - 1) =~= b.skip(i));
        assert(bytes_lt(a, b) == bytes_lt(a.drop_first(), b.drop_first()));
    }
}

/// Three-way comparison of byte sequences in lexicographic order.
fn bytes_cmp(a: &Vec<u8>, b: &Vec<u8>) -> (r: i8)
    ensures
        -1 <= r <= 1,
        (r == -1) <==> bytes_lt(a@, b@),
        (r == 0) <==> a@ == b@,
        (r == 1) <==> bytes_lt(b@, a@),
{
    proof {
        lemma_bytes_lt_trichotomy(a@, b@);
    }
    let n = if a.len() < b.len() {
        a.len()
    } else {
        b.len()
    };
    let mut i: usize = 0;
    while i < n
        invariant
            n <= a.len(),
            n <= b.len(),
            n == if a@.len() < b@.len() {
                a@.len()
            } else {
                b@.len()
            },
            i <= n,
            a@.subrange(0, i as int) == b@.subrange(0, i as int),
        decreases n - i,
    {
        if a[i] < b[i] {
            proof {
                lemma_bytes_lt_common_prefix(a@, b@, i as int);
                lemma_bytes_lt_trichotomy(a@, b@);
            }
            return -1;
        }
        if a[i] > b[i] {
            proof {
                lemma_bytes_lt_common_prefix(a@, b@, i as int);
                lemma_bytes_lt_trichotomy(a@, b@);
            }
            return 1;
        }
        proof {
            assert(a@.subrange(0, i + 1) =~= b@.subrange(0, i + 1)) by {
                assert forall|k: int| 0 <= k < i + 1 implies #[trigger] a@.subrange(0, i + 1)[k]
                    == b@.subrange(0, i + 1)[k] by {
                    if k < i {
                        assert(a@.subrange(0, i as int)[k] == b@.subrange(0, i as int)[k]);
                    }
                }
            }
        }
        i = i + 1;
    }
    proof {
        lemma_bytes_lt_common_prefix(a@, b@, i as int);
        lemma_bytes_lt_trichotomy(a@, b@);
    }
    if a.len() < b.len() {
        -1
    } else if a.len() > b.len() {
        1
    } else {
        proof {
            assert(a@.subrange(0, i as int) =~= a@);
            assert(b@.subrange(0, i as int) =~= b@);
        }
        0
    }
}

/// Three-way comparison of records in the total order `match_lt`.
pub fn match_cmp(a: &Match, b: &Match) -> (r: i8)
    ensures
        -1 <= r <= 1,
        (r == -1) <==> match_lt(a@, b@),
        (r == 0) <==> a@ == b@,
        (r == 1) <==> match_lt(b@, a@),
{
    proof {
        lemma_match_lt_trichotomy(a@, b@);
    }
    let fa = a.floor.to_u8();
    let fb = b.floor.to_u8();
    if fa < fb {
        return -1;
    }
    if fa > fb {
        return 1;
    }
    proof {
        assert(a.floor == b.floor) by {
            assert(Floor::spec_of_byte(fa) == Some(a.floor));
            assert(Floor::spec_of_byte(fb) == Some(b.floor));
        }
    }
    let ta = &a.timestamp;
    let tb = &b.timestamp;
    if ta.year < tb.year {
        return -1;
    }
    if ta.year > tb.year {
        return 1;
    }
    if ta.month < tb.month {
        return -1;
    }
    if ta.month > tb.month {
        return 1;
    }
    if ta.day < tb.day {
        return -1;
    }
    if ta.day > tb.day {
        return 1;
    }
    if ta.hour < tb.hour {
        return -1;
    }
    if ta.hour > tb.hour {
        return 1;
    }
    if ta.minute < tb.minute {
        return -1;
    }
    if ta.minute > tb.minute {
        return 1;
    }
    if ta.second < tb.second {
        return -1;
    }
    if ta.second > tb.second {
        return 1;
    }
    if a.players.0.id < b.players.0.id {
        return -1;
    }
    if a.players.0.id > b.players.0.id {
        return 1;
    }
    let c = bytes_cmp(&a.players.0.name, &b.players.0.name);
    if c != 0 {
        return c;
    }
    let ca = a.players.0.character.to_u8();
    let cb = b.players.0.character.to_u8();
    if ca < cb {
        return -1;
    }
    if ca > cb {
        return 1;
    }
    proof {
        assert(a.players.0.character == b.players.0.character) by {
            assert(Character::spec_of_byte(ca) == Some(a.players.0.character));
        }
        assert(a.players.0@ =~= b.players.0@);
    }
    if a.players.1.id < b.players.1.id {
        return -1;
    }
    if a.players.1.id > b.players.1.id {
        return 1;
    }
    let c2 = bytes_cmp(&a.players.1.name, &b.players.1.name);
    if c2 != 0 {
        return c2;
    }
    let da = a.players.1.character.to_u8();
    let db = b.players.1.character.to_u8();
    if da < db {
        return -1;
    }
    if da > db {
        return 1;
    }
    proof {
        assert(a.players.1.character == b.players.1.character) by {
            assert(Character::spec_of_byte(da) == Some(a.players.1.character));
        }
        assert(a.players.1@ =~= b.players.1@);
    }
    let wa = a.winner.to_u8();
    let wb = b.winner.to_u8();
    if wa < wb {
        return -1;
    }
    if wa > wb {
        return 1;
    }
    proof {
        assert(a.winner == b.winner) by {
            assert(Winner::spec_of_byte(wa) == Some(a.winner));
        }
        assert(a.timestamp == b.timestamp);
        assert(a@.players.0 == b@.players.0);
        assert(a@.players.1 == b@.players.1);
        assert(a@.players == b@.players);
        assert(a@ == b@);
    }
    0
}

/// The views of a sequence of records.
pub open spec fn views(s: Seq<Match>) -> Seq<MatchV> {
    Seq::new(s.len(), |i: int| s[i]@)
}

/// Strictly ascending in the record order, hence duplicate-free.
pub open spec fn sorted_unique(s: Seq<MatchV>) -> bool {
    forall|i: int, j: int| 0 <= i < j < s.len() ==> match_lt(#[trigger] s[i], #[trigger] s[j])
}

/// Insert a record into the ordered, deduplicating aggregate: the result
/// holds the records of the old aggregate plus the new one, in order, and an
/// already-present record changes nothing.
pub fn insert_match(v: &mut Vec<Match>, m: Match) -> (nothing: ())
    requires
        sorted_unique(views(old(v)@)),
    ensures
        sorted_unique(views(final(v)@)),
        views(final(v)@).to_set() == views(old(v)@).to_set().insert(m@),
        views(old(v)@).to_set().contains(m@) ==> final(v)@ == old(v)@,
{
    let ghost init = v@;
    let mut i: usize = 0;
    while i < v.len()
        invariant
            v@ == init,
            old(v)@ == init,
            sorted_unique(views(init)),
            i <= v@.len(),
            forall|j: int| 0 <= j < i ==> match_lt(#[trigger] views(init)[j], m@),
        decreases v@.len() - i,
    {
        let c = match_cmp(&v[i], &m);
        if c == 0 {
            proof {
                assert(views(init)[i as int] == m@);
                assert(views(init).contains(m@));
                assert(views(init).to_set().insert(m@) =~= views(init).to_set());
            }
            return ;
        }
        if c == 1 {
            // every earlier record is below m, every later one above it
            proof {
                assert(match_lt(m@, views(init)[i as int]));
                lemma_insert_position(init, m@, i as int);
            }
            v.insert(i, m);
            proof {
                lemma_inserted(init, v@, m, i as int);
            }
            return ;
        }
        proof {
            assert(views(init)[i as int] == v@[i as int]@);
        }
        i = i + 1;
    }
    proof {
        lemma_insert_position(init, m@, init.len() as int);
    }
    let ghost old_v = v@;
    v.push(m);
    proof {
        assert(v@ =~= old_v.insert(old_v.len() as int, m));
        lemma_inserted(init, v@, m, init.len() as int);
    }
}

/// At a position where everything before is below `m` and everything from the
/// position on is above it, `m` is absent from the aggregate.
proof fn lemma_insert_position(s: Seq<Match>, m: MatchV, i: int)
    requires
        sorted_unique(views(s)),
        0 <= i <= s.len(),
        forall|j: int| 0 <= j < i ==> match_lt(#[trigger] views(s)[j], m),
        i < s.len() ==> match_lt(m, views(s)[i]),
    ensures
        forall|j: int| i <= j < s.len() ==> match_lt(m, #[trigger] views(s)[j]),
        !views(s).to_set().contains(m),
{
    assert forall|j: int| i <= j < s.len() implies match_lt(m, #[trigger] views(s)[j]) by {
        if j > i {
            lemma_match_lt_trans(m, views(s)[i], views(s)[j]);
        }
    }
    if views(s).to_set().contains(m) {
        let k = choose|k: int| 0 <= k < views(s).len() && views(s)[k] == m;
        assert(views(s)[k] == m);
        if k < i {
            lemma_match_lt_trichotomy(views(s)[k], m);
        } else {
            lemma_match_lt_trichotomy(m, views(s)[k]);
        }
    }
}

/// After a vector insert at such a position the aggregate is again ordered
/// and holds exactly the old records plus the new one.
#[verifier::rlimit(50)]
proof fn lemma_inserted(init: Seq<Match>, now: Seq<Match>, m: Match, i: int)
    requires
        sorted_unique(views(init)),
        0 <= i <= init.len(),
        forall|j: int| 0 <= j < i ==> match_lt(#[trigger] views(init)[j], m@),
        forall|j: int| i <= j < init.len() ==> match_lt(m@, #[trigger] views(init)[j]),
        now == init.insert(i, m),
    ensures
        sorted_unique(views(now)),
        views(now).to_set() == views(init).to_set().insert(m@),
{
    init.insert_ensures(i, m);
    assert(now.len() == init.len() + 1);
    assert(forall|k: int| 0 <= k < i ==> #[trigger] now[k] == init[k]);
    assert(now[i] == m);
    assert forall|k: int| i < k < now.len() implies #[trigger] now[k] == init[k - 1] by {
        assert(init.insert(i, m)[(k - 1) + 1] == init[k - 1]);
    }
    assert forall|p: int, q: int|
        0 <= p < q < views(now).len() implies match_lt(
        #[trigger] views(now)[p],
        #[trigger] views(now)[q],
    ) by {
        if p < i && q < i {
            assert(views(now)[p] == views(init)[p]);
            assert(views(now)[q] == views(init)[q]);
        } else if p < i && q == i {
            assert(views(now)[p] == views(init)[p]);
            assert(views(now)[q] == m@);
        } else if p < i && q > i {
            assert(views(now)[p] == views(init)[p]);
            assert(views(now)[q] == views(init)[q - 1]);
            lemma_match_lt_trans(views(init)[p], m@, views(init)[q - 1]);
        } else if p == i {
            assert(views(now)[p] == m@);
            assert(views(now)[q] == views(init)[q - 1]);
        } else {
            assert(views(now)[p] == views(init)[p - 1]);
            assert(views(now)[q] == views(init)[q - 1]);
        }
    }
    assert(views(now).to_set() =~= views(init).to_set().insert(m@)) by {
        assert forall|x: MatchV| views(now).to_set().contains(x) implies views(
            init,
        ).to_set().insert(m@).contains(x) by {
            let k = choose|k: int| 0 <= k < views(now).len() && views(now)[k] == x;
            if k < i {
                assert(views(init)[k] == x);
                assert(views(init).contains(x));
            } else if k == i {
            } else {
                assert(views(init)[k - 1] == x);
                assert(views(init).contains(x));
            }
        }
        assert forall|x: MatchV| views(init).to_set().insert(m@).contains(x) implies views(
            now,
        ).to_set().contains(x) by {
            if x == m@ {
                assert(views(now)[i] == x);
                assert(views(now).contains(x));
            } else {
                let k = choose|k: int| 0 <= k < views(init).len() && views(init)[k] == x;
                if k < i {
                    assert(views(now)[k] == x);
                } else {
                    assert(views(now)[k + 1] == x);
                }
                assert(views(now).contains(x));
            }
        }
    }
}

/// Merge one decoded page into the aggregate: afterwards it holds the union
/// of both record sets, still in order. Re-merging records already seen, such
/// as a byte-identical segment on a later page, adds nothing.
pub fn merge_page(acc: &mut Vec<Match>, page: Vec<Match>) -> (nothing: ())
    requires
        sorted_unique(views(old(acc)@)),
    ensures
        sorted_unique(views(final(acc)@)),
        views(final(acc)@).to_set() == views(old(acc)@).to_set() + views(page@).to_set(),
{
    let ghost page0 = page@;
    let ghost acc0 = old(acc)@;
    let mut rest = page;
    while rest.len() > 0
        invariant
            sorted_unique(views(acc@)),
            views(acc@).to_set() + views(rest@).to_set() == views(acc0).to_set() + views(
                page0,
            ).to_set(),
        decreases rest@.len(),
    {
        let ghost before = rest@;
        let m = rest.remove(0);
        proof {
            assert(before[0] == m);
            assert(rest@ =~= before.drop_first());
        }
        let ghost acc_before = acc@;
        insert_match(acc, m);
        proof {
            assert(views(before).to_set() =~= views(rest@).to_set().insert(m@)) by {
                assert forall|x: MatchV| views(before).to_set().contains(x) implies views(
                    rest@,
                ).to_set().insert(m@).contains(x) by {
                    let k = choose|k: int| 0 <= k < views(before).len() && views(before)[k] == x;
                    if k == 0 {
                    } else {
                        assert(views(rest@)[k - 1] == x);
                        assert(views(rest@).contains(x));
                    }
                }
                assert forall|x: MatchV| views(rest@).to_set().insert(m@).contains(x) implies views(
                    before,
                ).to_set().contains(x) by {
                    if x == m@ {
                        assert(views(before)[0] == x);
                        assert(views(before).contains(x));
                    } else {
                        let k = choose|k: int| 0 <= k < views(rest@).len() && views(rest@)[k] == x;
                        assert(views(before)[k + 1] == x);
                        assert(views(before).contains(x));
                    }
                }
            }
            assert(views(acc@).to_set() + views(rest@).to_set() =~= views(acc0).to_set() + views(
                page0,
            ).to_set());
        }
    }
    proof {
        assert(views(rest@).to_set() =~= Set::empty());
        assert(views(acc@).to_set() =~= views(acc@).to_set() + views(rest@).to_set());
    }
}

/// Merging a page and then a byte-identical copy of it — as a later page
/// whose segments decode to the same records — leaves the aggregate exactly
/// as after the first merge: duplicates across pages collapse to one entry.
pub proof fn lemma_duplicate_page_collapses(
    acc: Seq<MatchV>,
    page: Seq<MatchV>,
    once: Seq<MatchV>,
    twice: Seq<MatchV>,
)
    requires
        sorted_unique(once),
        sorted_unique(twice),
        once.to_set() == acc.to_set() + page.to_set(),
        twice.to_set() == once.to_set() + page.to_set(),
    ensures
        twice == once,
{
    assert(twice.to_set() =~= once.to_set());
    lemma_sorted_unique_canonical(twice, once);
}

/// An ordered, duplicate-free aggregate is determined by the set of records
/// it holds: however the records arrived, the merged result is the same.
pub proof fn lemma_sorted_unique_canonical(a: Seq<MatchV>, b: Seq<MatchV>)
    requires
        sorted_unique(a),
        sorted_unique(b),
        a.to_set() == b.to_set(),
    ensures
        a == b,
    decreases a.len(),
{
    if a.len() == 0 {
        if b.len() > 0 {
            assert(b.contains(b[0]));
            assert(a.to_set().contains(b[0]));
            assert(a.contains(b[0]));
        }
        assert(a =~= b);
    } else {
        assert(a.contains(a[0]));
        assert(b.to_set().contains(a[0]));
        assert(b.contains(a[0]));
        let j = choose|j: int| 0 <= j < b.len() && b[j] == a[0];
        assert(a.to_set().contains(b[0]));
        assert(a.contains(b[0]));
        let i = choose|i: int| 0 <= i < a.len() && a[i] == b[0];
        if j > 0 {
            assert(match_lt(b[0], b[j]));
            if i > 0 {
                assert(match_lt(a[0], a[i]));
                lemma_match_lt_trans(a[0], b[0], a[0]);
                lemma_match_lt_trichotomy(a[0], a[0]);
            } else {
                lemma_match_lt_trichotomy(a[0], b[0]);
            }
        }
        assert(a[0] == b[0]);
        let at = a.drop_first();
        let bt = b.drop_first();
        assert(at.to_set() =~= bt.to_set()) by {
            lemma_tail_set(a);
            lemma_tail_set(b);
        }
        assert(sorted_unique(at)) by {
            assert(forall|p: int, q: int|
                0 <= p < q < at.len() ==> at[p] == a[p + 1] && at[q] == a[q + 1]);
        }
        assert(sorted_unique(bt)) by {
            assert(forall|p: int, q: int|
                0 <= p < q < bt.len() ==> bt[p] == b[p + 1] && bt[q] == b[q + 1]);
        }
        lemma_sorted_unique_canonical(at, bt);
        assert forall|k: int| 0 <= k < a.len() implies a[k] == b[k] by {
            if k > 0 {
                assert(a.drop_first()[k - 1] == a[k]);
                assert(b.drop_first()[k - 1] == b[k]);
            }
        }
        assert(a =~= b);
    }
}

/// The set of records after the first is the whole set without the first.
proof fn lemma_tail_set(a: Seq<MatchV>)
    requires
        sorted_unique(a),
        a.len() > 0,
    ensures
        a.drop_first().to_set() == a.to_set().remove(a[0]),
{
    let t = a.drop_first();
    assert(t.to_set() =~= a.to_set().remove(a[0])) by {
        assert forall|x: MatchV| t.to_set().contains(x) implies a.to_set().remove(a[0]).contains(
            x,
        ) by {
            let k = choose|k: int| 0 <= k < t.len() && t[k] == x;
            assert(a[k + 1] == x);
            assert(a.contains(x));
            assert(match_lt(a[0], a[k + 1]));
            lemma_match_lt_trichotomy(a[0], a[k + 1]);
        }
        assert forall|x: MatchV| a.to_set().remove(a[0]).contains(x) implies t.to_set().contains(
            x,
        ) by {
            let k = choose|k: int| 0 <= k < a.len() && a[k] == x;
            if k == 0 {
            } else {
                assert(t[k - 1] == x);
                assert(t.contains(x));
            }
        }
    }
}

} // verus!
