//! Seat policies: who is dealt into which seat.

use vstd::prelude::*;
use vstd::string::*;

use crate::cards::Direction;
use crate::text::{chars_of, same};

verus! {

/// A partnership.
#[derive(Clone, Copy, Debug, PartialEq, Eq, Hash, Structural)]
pub enum Side {
    NS,
    EW,
}

impl Side {
    /// Seat fill order within the side.
    pub open spec fn order(self) -> Seq<Direction> {
        match self {
            Side::NS => seq![Direction::South, Direction::North],
            Side::EW => seq![Direction::West, Direction::East],
        }
    }

    /// Seat fill order within the side (South/West first — the "primary"
    /// student seats).
    pub fn seats(self) -> (r: [Direction; 2])
        ensures
            r@ == self.order(),
    {
        let r = match self {
            Side::NS => [Direction::South, Direction::North],
            Side::EW => [Direction::West, Direction::East],
        };
        assert(r@ =~= self.order());
        r
    }

    pub open spec fn spec_of(dir: Direction) -> Side {
        if dir.is_ns() {
            Side::NS
        } else {
            Side::EW
        }
    }

    /// The side a seat belongs to.
    #[verifier::when_used_as_spec(spec_of)]
    pub fn of(dir: Direction) -> (r: Side)
        ensures
            r == Side::spec_of(dir),
    {
        match dir {
            Direction::North | Direction::South => Side::NS,
            Direction::East | Direction::West => Side::EW,
        }
    }

    pub open spec fn name(self) -> Seq<char> {
        match self {
            Side::NS => "NS"@,
            Side::EW => "EW"@,
        }
    }

    pub fn from_key(key: &str) -> (r: Option<Side>)
        ensures
            r == (if key@ == "NS"@ {
                Some(Side::NS)
            } else if key@ == "EW"@ {
                Some(Side::EW)
            } else {
                None
            }),
            forall|side: Side| r == Some(side) <==> key@ == #[trigger] side.name(),
    {
        proof {
            reveal_strlit("NS");
            reveal_strlit("EW");
            assert("NS"@[0] == 'N' && "EW"@[0] == 'E');
        }
        if same(key, "NS") {
            Some(Side::NS)
        } else if same(key, "EW") {
            Some(Side::EW)
        } else {
            None
        }
    }

    pub fn key(self) -> (r: &'static str)
        ensures
            r@ == self.name(),
    {
        match self {
            Side::NS => "NS",
            Side::EW => "EW",
        }
    }
}

/// A side's seats are the two seats that belong to it.
pub proof fn law_side_of_seat(side: Side, seat: Direction)
    ensures
        side.order().contains(seat) <==> Side::of(seat) == side,
{
    assert(side.order().len() == 2);
    if Side::of(seat) == side {
        if side.order()[0] == seat {
            assert(side.order().contains(seat));
        } else {
            assert(side.order()[1] == seat);
        }
    }
}

/// A side is filled from South or from West, their partner second; its key is
/// made of its seats' letters.
pub proof fn law_sides(side: Side, seat: Direction)
    ensures
        side.order().len() == 2,
        side.order()[0] == Direction::South || side.order()[0] == Direction::West,
        side.order()[1] == side.order()[0].partner(),
        side.name().len() == 2,
        side.name().contains(seat.to_char()) <==> Side::of(seat) == side,
        Side::of(Direction::South) == Side::NS,
        Side::of(seat) != Side::of(seat.next()),
{
    reveal_strlit("NS");
    reveal_strlit("EW");
    assert("NS"@.len() == 2 && "NS"@[0] == 'N' && "NS"@[1] == 'S');
    assert("EW"@.len() == 2 && "EW"@[0] == 'E' && "EW"@[1] == 'W');
}

/// A set of sides.
#[derive(Clone, Copy, Debug, PartialEq, Eq, Structural)]
pub struct SideSet {
    pub ns: bool,
    pub ew: bool,
}

impl SideSet {
    /// The sides of the set, in a list.
    pub open spec fn listed(self) -> Seq<Side> {
        (if self.ns {
            seq![Side::NS]
        } else {
            seq![]
        }) + (if self.ew {
            seq![Side::EW]
        } else {
            seq![]
        })
    }

    pub open spec fn none() -> SideSet {
        SideSet { ns: false, ew: false }
    }

    pub open spec fn has(self, side: Side) -> bool {
        match side {
            Side::NS => self.ns,
            Side::EW => self.ew,
        }
    }

    /// The empty set.
    #[verifier::when_used_as_spec(none)]
    pub fn new() -> (r: SideSet)
        ensures
            r == SideSet::none(),
    {
        SideSet { ns: false, ew: false }
    }

    pub fn insert(&mut self, side: Side)
        ensures
            forall|s: Side| #[trigger] final(self).has(s) == (s == side || old(self).has(s)),
    {
        match side {
            Side::NS => { self.ns = true; },
            Side::EW => { self.ew = true; },
        }
    }

    pub fn contains(&self, side: Side) -> (r: bool)
        ensures
            r == self.has(side),
    {
        match side {
            Side::NS => self.ns,
            Side::EW => self.ew,
        }
    }
}

/// Each flag of a set of sides speaks for its own side.
pub proof fn law_side_set(set: SideSet, side: Side)
    ensures
        set.has(Side::NS) == set.ns,
        set.has(Side::EW) == set.ew,
        !SideSet::none().has(side),
{
}

/// The list of a set of sides holds each of its sides once, North and South's
/// first.
pub proof fn law_sides_listed(set: SideSet, side: Side)
    ensures
        set.listed().contains(side) <==> set.has(side),
        set.listed().no_duplicates(),
        set.listed().len() == 2 ==> set.listed()[0] == Side::of(Direction::North),
{
    if set.has(side) {
        let k: int = if side == Side::EW && set.ns {
            1
        } else {
            0
        };
        assert(set.listed()[k] == side);
    }
}

/// Which seats arrivals are dealt into.
#[derive(Debug, PartialEq, Eq)]
pub enum SeatPolicy {
    /// Arrivals wait until the teacher seats them.
    Manual,
    /// Round-robin across tables into the listed seats.
    OnePerSeat(Vec<Direction>),
    /// A table's whole side before the next table.
    Pairs(Vec<Side>),
    /// Round-robin across tables into the first free seat.
    FirstFree,
}

/// What a seat policy is.
pub ghost enum PolicyView {
    Manual,
    OnePerSeat(Seq<Direction>),
    Pairs(Seq<Side>),
    FirstFree,
}

impl View for SeatPolicy {
    type V = PolicyView;

    open spec fn view(&self) -> PolicyView {
        match self {
            SeatPolicy::Manual => PolicyView::Manual,
            SeatPolicy::OnePerSeat(seats) => PolicyView::OnePerSeat(seats@),
            SeatPolicy::Pairs(sides) => PolicyView::Pairs(sides@),
            SeatPolicy::FirstFree => PolicyView::FirstFree,
        }
    }
}

/// The order in which a table's seats are taken when any will do: South first,
/// the traditional student seat.
pub open spec fn fill_order() -> Seq<Direction> {
    seq![Direction::South, Direction::West, Direction::North, Direction::East]
}

/// The seats of some sides, side by side.
pub open spec fn seats_of_sides(sides: Seq<Side>) -> Seq<Direction>
    decreases sides.len(),
{
    if sides.len() == 0 {
        seq![]
    } else {
        seats_of_sides(sides.drop_last()) + sides.last().order()
    }
}

impl PolicyView {
    /// A policy that lists seats or sides lists at least one.
    pub open spec fn wf(self) -> bool {
        match self {
            PolicyView::OnePerSeat(seats) => seats.len() > 0,
            PolicyView::Pairs(sides) => sides.len() > 0,
            _ => true,
        }
    }

    /// The seats that the policy fills, in order.
    pub open spec fn seats(self) -> Seq<Direction> {
        match self {
            PolicyView::Manual => seq![],
            PolicyView::OnePerSeat(seats) => seats,
            PolicyView::Pairs(sides) => seats_of_sides(sides),
            PolicyView::FirstFree => fill_order(),
        }
    }

    /// The policy by which a waiting lobby is seated: manual seating has no
    /// order of its own.
    pub open spec fn bulk(self) -> PolicyView {
        match self {
            PolicyView::Manual => PolicyView::FirstFree,
            _ => self,
        }
    }

    /// The seat that is taken first at an empty table.
    pub open spec fn first(self) -> Direction {
        match self {
            PolicyView::OnePerSeat(seats) => seats[0],
            PolicyView::Pairs(sides) => sides[0].order()[0],
            _ => Direction::South,
        }
    }

    /// The console's key for the policy.
    pub open spec fn name(self) -> Seq<char> {
        match self {
            PolicyView::FirstFree => "first_free"@,
            PolicyView::Manual => "manual"@,
            PolicyView::OnePerSeat(seats) => if seats == seq![Direction::South] {
                "one_per_south"@
            } else if seats == seq![Direction::South, Direction::North] {
                "two_per_ns"@
            } else {
                "custom"@
            },
            PolicyView::Pairs(sides) => if sides == seq![Side::NS] {
                "pairs_ns"@
            } else {
                "custom"@
            },
        }
    }

    /// The policy that a console key names.
    pub open spec fn named(key: Seq<char>) -> Option<PolicyView> {
        if key == "first_free"@ {
            Some(PolicyView::FirstFree)
        } else if key == "one_per_south"@ {
            Some(PolicyView::OnePerSeat(seq![Direction::South]))
        } else if key == "two_per_ns"@ {
            Some(PolicyView::OnePerSeat(seq![Direction::South, Direction::North]))
        } else if key == "pairs_ns"@ {
            Some(PolicyView::Pairs(seq![Side::NS]))
        } else if key == "manual"@ {
            Some(PolicyView::Manual)
        } else {
            None
        }
    }
}

/// The first seat that a policy fills is the one it takes at an empty table.
pub proof fn law_first_seat_of_policy(p: PolicyView)
    requires
        p.wf(),
        !(p is Manual),
    ensures
        p.seats().len() > 0,
        p.seats()[0] == p.first(),
{
    if let PolicyView::Pairs(sides) = p {
        lemma_first_side_seat(sides);
    }
}

proof fn lemma_first_side_seat(sides: Seq<Side>)
    requires
        sides.len() > 0,
    ensures
        seats_of_sides(sides).len() > 0,
        seats_of_sides(sides)[0] == sides[0].order()[0],
    decreases sides.len(),
{
    if sides.len() > 1 {
        lemma_first_side_seat(sides.drop_last());
    } else {
        assert(sides.drop_last() =~= Seq::<Side>::empty());
        assert(seats_of_sides(sides.drop_last()) =~= Seq::<Direction>::empty());
        assert(seats_of_sides(sides) =~= sides[0].order());
    }
}

/// A console key names the policy that goes by it.
pub proof fn law_policy_keys(key: Seq<char>)
    ensures
        PolicyView::named(key) matches Some(p) ==> p.name() == key && p.wf(),
{
    if PolicyView::named(key) is Some {
        assert(seq![Direction::South] != seq![Direction::South, Direction::North]) by {
            assert(seq![Direction::South].len() == 1);
            assert(seq![Direction::South, Direction::North].len() == 2);
        }
    }
}

/// What the console's keys stand for: any seat from South clockwise; South
/// alone; South and then North, one to a table in turn or both at once; nobody.
pub proof fn law_policy_meanings(p: PolicyView)
    ensures
        PolicyView::named("first_free"@) == Some(PolicyView::FirstFree),
        PolicyView::named("one_per_south"@) == Some(PolicyView::OnePerSeat(seq![Direction::South])),
        PolicyView::named("two_per_ns"@) == Some(
            PolicyView::OnePerSeat(seq![Direction::South, Direction::North]),
        ),
        PolicyView::named("pairs_ns"@) == Some(PolicyView::Pairs(seq![Side::NS])),
        PolicyView::named("manual"@) == Some(PolicyView::Manual),
        PolicyView::named("custom"@) is None,
        PolicyView::named(p.name()) is Some ==> PolicyView::named(p.name()) == Some(p),
{
    reveal_strlit("first_free");
    reveal_strlit("one_per_south");
    reveal_strlit("two_per_ns");
    reveal_strlit("pairs_ns");
    reveal_strlit("manual");
    reveal_strlit("custom");
    assert("first_free"@.len() == 10 && "one_per_south"@.len() == 13 && "two_per_ns"@.len() == 10
        && "pairs_ns"@.len() == 8 && "manual"@.len() == 6 && "custom"@.len() == 6);
    assert("first_free"@[0] == 'f' && "two_per_ns"@[0] == 't' && "manual"@[0] == 'm'
        && "custom"@[0] == 'c');
}

/// Any seat will do from South clockwise; a policy of seats fills those listed; a
/// policy of sides fills side after side, each as the side is filled; manual
/// seating fills none, but a waiting lobby is then seated wherever there is room.
pub proof fn law_policy_seats(p: PolicyView, i: int)
    ensures
        p is FirstFree && 0 <= i < 4 ==> p.seats().len() == 4 && p.seats()[i]
            == Direction::South.plus(i),
        p matches PolicyView::OnePerSeat(seats) ==> p.seats() == seats,
        p matches PolicyView::Pairs(sides) ==> p.seats().len() == 2 * sides.len() && (0 <= i
            < sides.len() ==> p.seats()[2 * i] == sides[i].order()[0] && p.seats()[2 * i + 1]
            == sides[i].order()[1]),
        p is Manual ==> p.seats().len() == 0,
        p.bulk() == (if p is Manual { PolicyView::FirstFree } else { p }),
{
    if let PolicyView::Pairs(sides) = p {
        lemma_side_seats(sides, i);
    }
}

proof fn lemma_side_seats(sides: Seq<Side>, i: int)
    ensures
        seats_of_sides(sides).len() == 2 * sides.len(),
        0 <= i < sides.len() ==> seats_of_sides(sides)[2 * i] == sides[i].order()[0]
            && seats_of_sides(sides)[2 * i + 1] == sides[i].order()[1],
    decreases sides.len(),
{
    if sides.len() > 0 {
        lemma_side_seats(sides.drop_last(), i);
        assert(sides.last().order().len() == 2);
    }
}

/// One member of a list in a policy request.
#[derive(Debug)]
pub struct PolicyItem {
    /// The member, where it is a text.
    pub text: Option<String>,
    /// The member as it was written.
    pub written: String,
}

/// A policy request: what each field holds, where it holds what it should.
#[derive(Debug)]
pub struct PolicyRequest {
    pub mode: Option<String>,
    pub pattern: Option<String>,
    pub seats: Option<Vec<PolicyItem>>,
    pub sides: Option<Vec<PolicyItem>>,
}

/// What an optional text is.
pub open spec fn text_view(s: Option<String>) -> Option<Seq<char>> {
    match s {
        Some(text) => Some(text@),
        None => None,
    }
}

/// The seat that a list member names: by its first letter.
pub open spec fn seat_in(text: Option<Seq<char>>) -> Option<Direction> {
    match text {
        Some(t) => if t.len() > 0 {
            Direction::named(t[0])
        } else {
            None
        },
        None => None,
    }
}

/// The seat that a text names, if there is one: by its first letter.
pub(crate) fn seat_of_text(text: &Option<String>) -> (r: Option<Direction>)
    ensures
        r == seat_in(text_view(*text)),
{
    match text {
        Some(s) => {
            let chars = chars_of(s.as_str());
            if chars.len() > 0 {
                Direction::from_char(chars[0])
            } else {
                None
            }
        },
        None => None,
    }
}

/// The side that a list member names.
pub open spec fn side_in(text: Option<Seq<char>>) -> Option<Side> {
    match text {
        Some(t) => if t == "NS"@ {
            Some(Side::NS)
        } else if t == "EW"@ {
            Some(Side::EW)
        } else {
            None
        },
        None => None,
    }
}

/// An optional text as `{:?}` renders it.
pub uninterp spec fn debug_text(s: Option<Seq<char>>) -> Seq<char>;

/// Renders an optional text with `{:?}` (`Debug` of `Option<&str>`). How it
/// quotes and escapes is left to the standard library; the rendering is given a
/// name, and nothing else is said of it.
#[verifier::external_body]
fn debug_string(s: Option<&String>) -> (r: String)
    ensures
        r@ == debug_text(match s {
            Some(text) => Some(text@),
            None => None,
        }),
{
    format!("{:?}", s)
}

/// The seats that a list names, or what is wrong with its first bad member.
pub open spec fn listed_seats(items: Seq<PolicyItem>) -> Result<Seq<Direction>, Seq<char>>
    decreases items.len(),
{
    if items.len() == 0 {
        Ok(seq![])
    } else {
        match listed_seats(items.drop_last()) {
            Err(e) => Err(e),
            Ok(seats) => match seat_in(text_view(items.last().text)) {
                Some(seat) => Ok(seats.push(seat)),
                None => Err("bad seat "@ + items.last().written@),
            },
        }
    }
}

/// The sides that a list names, or what is wrong with its first bad member.
pub open spec fn listed_sides(items: Seq<PolicyItem>) -> Result<Seq<Side>, Seq<char>>
    decreases items.len(),
{
    if items.len() == 0 {
        Ok(seq![])
    } else {
        match listed_sides(items.drop_last()) {
            Err(e) => Err(e),
            Ok(sides) => match side_in(text_view(items.last().text)) {
                Some(side) => Ok(sides.push(side)),
                None => Err("bad side "@ + debug_text(text_view(items.last().text))),
            },
        }
    }
}

/// The policy that a request asks for, or why it asks for none. Without a
/// request, and without a mode and a pattern, it is the first-free default.
pub open spec fn requested_policy(req: Option<PolicyRequest>) -> Result<PolicyView, Seq<char>> {
    match req {
        None => Ok(PolicyView::FirstFree),
        Some(v) => {
            let mode = match v.mode {
                Some(m) => m@,
                None => "auto"@,
            };
            let pattern = match v.pattern {
                Some(p) => p@,
                None => "first_free"@,
            };
            if mode == "manual"@ {
                Ok(PolicyView::Manual)
            } else if mode != "auto"@ {
                Err("unknown seat mode '"@ + mode + "'"@)
            } else if pattern == "first_free"@ {
                Ok(PolicyView::FirstFree)
            } else if pattern == "one_per_seat"@ {
                match v.seats {
                    None => Err("one_per_seat requires seats:[...]"@),
                    Some(items) => match listed_seats(items@) {
                        Err(e) => Err(e),
                        Ok(seats) => if seats.len() == 0 {
                            Err("one_per_seat requires at least one seat"@)
                        } else {
                            Ok(PolicyView::OnePerSeat(seats))
                        },
                    },
                }
            } else if pattern == "pairs"@ {
                match v.sides {
                    None => Err("pairs requires sides:[...]"@),
                    Some(items) => match listed_sides(items@) {
                        Err(e) => Err(e),
                        Ok(sides) => if sides.len() == 0 {
                            Err("pairs requires at least one side"@)
                        } else {
                            Ok(PolicyView::Pairs(sides))
                        },
                    },
                }
            } else {
                Err("unknown seat pattern '"@ + pattern + "'"@)
            }
        },
    }
}

/// A list of seats is read member by member: each names the seat of its first
/// letter, and the list is good exactly if every member names one.
pub proof fn law_listed_seats(items: Seq<PolicyItem>, i: int)
    requires
        0 <= i < items.len(),
    ensures
        listed_seats(items) matches Ok(seats) ==> seats.len() == items.len() && (
        items[i].text matches Some(t) && t@.len() > 0 && t@[0] == seats[i].to_char()),
        (forall|j: int|
            0 <= j < items.len() ==> ((#[trigger] items[j]).text matches Some(t) && t@.len() > 0
                && Direction::named(t@[0]) is Some)) ==> listed_seats(items) is Ok,
    decreases items.len(),
{
    let head = items.drop_last();
    assert(items[items.len() - 1] == items.last());
    if head.len() > 0 {
        let at = if i < head.len() { i } else { 0int };
        law_listed_seats(head, at);
        assert(forall|j: int| 0 <= j < head.len() ==> head[j] == items[j]);
    }
}

/// A list of sides is read member by member, each by the side's key, and is good
/// exactly if every member is such a key.
pub proof fn law_listed_sides(items: Seq<PolicyItem>, i: int)
    requires
        0 <= i < items.len(),
    ensures
        listed_sides(items) matches Ok(sides) ==> sides.len() == items.len() && (
        items[i].text matches Some(t) && t@ == sides[i].name()),
        (forall|j: int|
            0 <= j < items.len() ==> ((#[trigger] items[j]).text matches Some(t) && (t@
                == Side::NS.name() || t@ == Side::EW.name()))) ==> listed_sides(items) is Ok,
    decreases items.len(),
{
    let head = items.drop_last();
    assert(items[items.len() - 1] == items.last());
    if head.len() > 0 {
        let at = if i < head.len() { i } else { 0int };
        law_listed_sides(head, at);
        assert(forall|j: int| 0 <= j < head.len() ==> head[j] == items[j]);
    }
}

/// A request names the policy that it gets. Nothing at all is the first free seat;
/// the mode is automatic unless it says otherwise, by hand whatever the pattern;
/// patterns by seats and by sides take their lists, which must not be empty; and
/// other words are errors.
pub proof fn law_requested_policy(v: PolicyRequest)
    ensures
        requested_policy(None) == Ok::<PolicyView, Seq<char>>(PolicyView::FirstFree),
        ({
            let r = requested_policy(Some(v));
            let mode = text_view(v.mode);
            let auto = mode is None || mode == Some("auto"@);
            let pattern = text_view(v.pattern);
            &&& mode == Some("manual"@) <==> r == Ok::<PolicyView, Seq<char>>(PolicyView::Manual)
            &&& auto && (pattern is None || pattern == Some("first_free"@)) <==> r == Ok::<
                PolicyView,
                Seq<char>,
            >(PolicyView::FirstFree)
            &&& r matches Ok(PolicyView::OnePerSeat(seats)) ==> auto && pattern == Some(
                "one_per_seat"@,
            ) && v.seats is Some && seats.len() > 0 && listed_seats(v.seats->0@) == Ok::<
                Seq<Direction>,
                Seq<char>,
            >(seats)
            &&& auto && pattern == Some("one_per_seat"@) && v.seats is Some && (listed_seats(
                v.seats->0@,
            ) matches Ok(seats) && seats.len() > 0) ==> (r matches Ok(p) && p is OnePerSeat)
            &&& r matches Ok(PolicyView::Pairs(sides)) ==> auto && pattern == Some("pairs"@)
                && v.sides is Some && sides.len() > 0 && listed_sides(v.sides->0@) == Ok::<
                Seq<Side>,
                Seq<char>,
            >(sides)
            &&& auto && pattern == Some("pairs"@) && v.sides is Some && (listed_sides(v.sides->0@)
                matches Ok(sides) && sides.len() > 0) ==> (r matches Ok(p) && p is Pairs)
            &&& !auto && mode != Some("manual"@) ==> r == Err::<PolicyView, Seq<char>>(
                "unknown seat mode '"@ + mode->0 + "'"@,
            )
        }),
{
    reveal_strlit("auto");
    reveal_strlit("manual");
    reveal_strlit("first_free");
    reveal_strlit("one_per_seat");
    reveal_strlit("pairs");
    assert("auto"@.len() == 4 && "manual"@.len() == 6 && "first_free"@.len() == 10
        && "one_per_seat"@.len() == 12 && "pairs"@.len() == 5);
}

/// A text between quotation marks, after some words.
pub fn quoted(words: &str, text: &str) -> (r: String)
    ensures
        r@ == words@ + text@ + "'"@,
{
    let mut s = words.to_owned();
    s.append(text);
    s.append("'");
    s
}

/// Some words, and then a text.
pub fn joined(words: &str, text: &str) -> (r: String)
    ensures
        r@ == words@ + text@,
{
    let mut s = words.to_owned();
    s.append(text);
    s
}

fn read_seats(items: &Vec<PolicyItem>) -> (r: Result<Vec<Direction>, String>)
    ensures
        match r {
            Ok(seats) => listed_seats(items@) == Ok::<Seq<Direction>, Seq<char>>(seats@),
            Err(e) => listed_seats(items@) == Err::<Seq<Direction>, Seq<char>>(e@),
        },
{
    let mut seats: Vec<Direction> = Vec::new();
    let mut i: usize = 0;
    while i < items.len()
        invariant
            i <= items.len(),
            listed_seats(items@.subrange(0, i as int)) == Ok::<Seq<Direction>, Seq<char>>(seats@),
        decreases items.len() - i,
    {
        let ghost longer = items@.subrange(0, i + 1);
        proof {
            assert(longer.drop_last() =~= items@.subrange(0, i as int));
            assert(longer.last() == items@[i as int]);
        }
        let seat = match &items[i].text {
            Some(text) => {
                let chars = chars_of(text.as_str());
                if chars.len() > 0 {
                    Direction::from_char(chars[0])
                } else {
                    None
                }
            },
            None => None,
        };
        match seat {
            Some(seat) => {
                seats.push(seat);
            },
            None => {
                let e = joined("bad seat ", items[i].written.as_str());
                proof {
                    lemma_first_bad_seat(items@, i + 1);
                }
                return Err(e);
            },
        }
        i = i + 1;
    }
    assert(items@.subrange(0, i as int) =~= items@);
    Ok(seats)
}

/// The first bad member decides.
proof fn lemma_first_bad_seat(items: Seq<PolicyItem>, n: int)
    requires
        0 <= n <= items.len(),
        listed_seats(items.subrange(0, n)) is Err,
    ensures
        listed_seats(items) == listed_seats(items.subrange(0, n)),
    decreases items.len() - n,
{
    if n < items.len() {
        assert(items.subrange(0, n + 1).drop_last() =~= items.subrange(0, n));
        lemma_first_bad_seat(items, n + 1);
    } else {
        assert(items.subrange(0, n) =~= items);
    }
}

/// The first bad member decides.
proof fn lemma_first_bad_side(items: Seq<PolicyItem>, n: int)
    requires
        0 <= n <= items.len(),
        listed_sides(items.subrange(0, n)) is Err,
    ensures
        listed_sides(items) == listed_sides(items.subrange(0, n)),
    decreases items.len() - n,
{
    if n < items.len() {
        assert(items.subrange(0, n + 1).drop_last() =~= items.subrange(0, n));
        lemma_first_bad_side(items, n + 1);
    } else {
        assert(items.subrange(0, n) =~= items);
    }
}

fn read_sides(items: &Vec<PolicyItem>) -> (r: Result<Vec<Side>, String>)
    ensures
        match r {
            Ok(sides) => listed_sides(items@) == Ok::<Seq<Side>, Seq<char>>(sides@),
            Err(e) => listed_sides(items@) == Err::<Seq<Side>, Seq<char>>(e@),
        },
{
    let mut sides: Vec<Side> = Vec::new();
    let mut i: usize = 0;
    while i < items.len()
        invariant
            i <= items.len(),
            listed_sides(items@.subrange(0, i as int)) == Ok::<Seq<Side>, Seq<char>>(sides@),
        decreases items.len() - i,
    {
        let ghost longer = items@.subrange(0, i + 1);
        proof {
            assert(longer.drop_last() =~= items@.subrange(0, i as int));
            assert(longer.last() == items@[i as int]);
        }
        let side = match &items[i].text {
            Some(text) => Side::from_key(text.as_str()),
            None => None,
        };
        match side {
            Some(side) => {
                sides.push(side);
            },
            None => {
                let shown = debug_string(items[i].text.as_ref());
                let e = joined("bad side ", shown.as_str());
                proof {
                    lemma_first_bad_side(items@, i + 1);
                }
                return Err(e);
            },
        }
        i = i + 1;
    }
    assert(items@.subrange(0, i as int) =~= items@);
    Ok(sides)
}

/// Whether two lists of seats are the same.
fn same_seats(a: &Vec<Direction>, b: &[Direction]) -> (r: bool)
    ensures
        r == (a@ == b@),
{
    if a.len() != b.len() {
        return false;
    }
    let mut i: usize = 0;
    while i < a.len()
        invariant
            i <= a.len(),
            a@.len() == b@.len(),
            forall|j: int| 0 <= j < i ==> a@[j] == b@[j],
        decreases a.len() - i,
    {
        if a[i] != b[i] {
            return false;
        }
        i = i + 1;
    }
    assert(a@ =~= b@);
    true
}

/// Copies a list of seats.
pub fn copy_seats(seats: &Vec<Direction>) -> (r: Vec<Direction>)
    ensures
        r@ == seats@,
{
    let mut r: Vec<Direction> = Vec::new();
    let mut i: usize = 0;
    while i < seats.len()
        invariant
            i <= seats.len(),
            r@ == seats@.subrange(0, i as int),
        decreases seats.len() - i,
    {
        r.push(seats[i]);
        i = i + 1;
    }
    r
}

impl SeatPolicy {
    /// Reads a policy request. Missing/empty → the first-free default.
    pub fn from_value(v: Option<&PolicyRequest>) -> (r: Result<SeatPolicy, String>)
        ensures
            ({
                let req = match v {
                    Some(req) => Some(*req),
                    None => None,
                };
                match r {
                    Ok(p) => requested_policy(req) == Ok::<PolicyView, Seq<char>>(p@) && p@.wf(),
                    Err(e) => requested_policy(req) == Err::<PolicyView, Seq<char>>(e@),
                }
            }),
    {
        let v = match v {
            None => {
                return Ok(SeatPolicy::FirstFree);
            },
            Some(v) => v,
        };
        let mode = match &v.mode {
            Some(mode) => mode.as_str(),
            None => "auto",
        };
        let pattern = match &v.pattern {
            Some(pattern) => pattern.as_str(),
            None => "first_free",
        };
        if same(mode, "manual") {
            Ok(SeatPolicy::Manual)
        } else if !same(mode, "auto") {
            Err(quoted("unknown seat mode '", mode))
        } else if same(pattern, "first_free") {
            Ok(SeatPolicy::FirstFree)
        } else if same(pattern, "one_per_seat") {
            match &v.seats {
                None => Err("one_per_seat requires seats:[...]".to_owned()),
                Some(items) => match read_seats(items) {
                    Err(e) => Err(e),
                    Ok(seats) => if seats.len() == 0 {
                        Err("one_per_seat requires at least one seat".to_owned())
                    } else {
                        Ok(SeatPolicy::OnePerSeat(seats))
                    },
                },
            }
        } else if same(pattern, "pairs") {
            match &v.sides {
                None => Err("pairs requires sides:[...]".to_owned()),
                Some(items) => match read_sides(items) {
                    Err(e) => Err(e),
                    Ok(sides) => if sides.len() == 0 {
                        Err("pairs requires at least one side".to_owned())
                    } else {
                        Ok(SeatPolicy::Pairs(sides))
                    },
                },
            }
        } else {
            Err(quoted("unknown seat pattern '", pattern))
        }
    }

    /// Short key ↔ policy for the console dropdown (a curated subset of the
    /// full policy space).
    pub fn from_key(key: &str) -> (r: Option<SeatPolicy>)
        ensures
            match r {
                Some(p) => PolicyView::named(key@) == Some(p@) && p@.wf(),
                None => PolicyView::named(key@) is None,
            },
    {
        if same(key, "first_free") {
            Some(SeatPolicy::FirstFree)
        } else if same(key, "one_per_south") {
            let seats = vec![Direction::South];
            assert(seats@ =~= seq![Direction::South]);
            Some(SeatPolicy::OnePerSeat(seats))
        } else if same(key, "two_per_ns") {
            let seats = vec![Direction::South, Direction::North];
            assert(seats@ =~= seq![Direction::South, Direction::North]);
            Some(SeatPolicy::OnePerSeat(seats))
        } else if same(key, "pairs_ns") {
            let sides = vec![Side::NS];
            assert(sides@ =~= seq![Side::NS]);
            Some(SeatPolicy::Pairs(sides))
        } else if same(key, "manual") {
            Some(SeatPolicy::Manual)
        } else {
            None
        }
    }

    /// The console's key for the policy; "custom" where it has none.
    pub fn key(&self) -> (r: &'static str)
        ensures
            r@ == self@.name(),
    {
        match self {
            SeatPolicy::FirstFree => "first_free",
            SeatPolicy::Manual => "manual",
            SeatPolicy::OnePerSeat(seats) => {
                let south: [Direction; 1] = [Direction::South];
                let pair: [Direction; 2] = [Direction::South, Direction::North];
                assert(south@ =~= seq![Direction::South]);
                assert(pair@ =~= seq![Direction::South, Direction::North]);
                if same_seats(seats, &south) {
                    "one_per_south"
                } else if same_seats(seats, &pair) {
                    "two_per_ns"
                } else {
                    "custom"
                }
            },
            SeatPolicy::Pairs(sides) => {
                if sides.len() == 1 && sides[0] == Side::NS {
                    assert(sides@ =~= seq![Side::NS]);
                    "pairs_ns"
                } else {
                    assert(seq![Side::NS].len() == 1 && seq![Side::NS][0] == Side::NS);
                    "custom"
                }
            },
        }
    }

    pub fn copy(&self) -> (r: SeatPolicy)
        ensures
            r@ == self@,
    {
        match self {
            SeatPolicy::Manual => SeatPolicy::Manual,
            SeatPolicy::FirstFree => SeatPolicy::FirstFree,
            SeatPolicy::OnePerSeat(seats) => SeatPolicy::OnePerSeat(copy_seats(seats)),
            SeatPolicy::Pairs(sides) => {
                let mut copied: Vec<Side> = Vec::new();
                let mut i: usize = 0;
                while i < sides.len()
                    invariant
                        i <= sides.len(),
                        copied@ == sides@.subrange(0, i as int),
                    decreases sides.len() - i,
                {
                    copied.push(sides[i]);
                    i = i + 1;
                }
                assert(copied@ =~= sides@);
                SeatPolicy::Pairs(copied)
            },
        }
    }

    /// The seats that the policy fills, in order.
    pub fn seats(&self) -> (r: Vec<Direction>)
        ensures
            r@ == self@.seats(),
    {
        match self {
            SeatPolicy::Manual => Vec::new(),
            SeatPolicy::FirstFree => {
                let r = vec![
                    Direction::South,
                    Direction::West,
                    Direction::North,
                    Direction::East,
                ];
                assert(r@ =~= fill_order());
                r
            },
            SeatPolicy::OnePerSeat(seats) => copy_seats(seats),
            SeatPolicy::Pairs(sides) => {
                let mut r: Vec<Direction> = Vec::new();
                let mut i: usize = 0;
                while i < sides.len()
                    invariant
                        i <= sides.len(),
                        r@ == seats_of_sides(sides@.subrange(0, i as int)),
                    decreases sides.len() - i,
                {
                    proof {
                        let longer = sides@.subrange(0, i + 1);
                        assert(longer.drop_last() =~= sides@.subrange(0, i as int));
                        assert(longer.last() == sides@[i as int]);
                    }
                    let ghost before = r@;
                    let pair = sides[i].seats();
                    r.push(pair[0]);
                    r.push(pair[1]);
                    assert(r@ =~= before + sides@[i as int].order());
                    i = i + 1;
                }
                assert(sides@.subrange(0, i as int) =~= sides@);
                r
            },
        }
    }

    /// The primary seat to use in a brand-new (empty) table for a shape.
    pub fn first_seat_of(&self) -> (r: Direction)
        requires
            self@.wf(),
        ensures
            r == self@.first(),
    {
        match self {
            SeatPolicy::OnePerSeat(seats) => seats[0],
            SeatPolicy::Pairs(sides) => sides[0].seats()[0],
            _ => Direction::South,
        }
    }

    /// The shape used for bulk/auto seating. Manual has no auto shape → treat
    /// it as FirstFree when the teacher explicitly seats the lobby.
    pub fn bulk_shape(&self) -> (r: SeatPolicy)
        ensures
            r@ == self@.bulk(),
    {
        match self {
            SeatPolicy::Manual => SeatPolicy::FirstFree,
            _ => self.copy(),
        }
    }
}

} // verus!
