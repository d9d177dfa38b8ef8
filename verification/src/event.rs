//! The catalog of competition events.

use vstd::prelude::*;
use vstd::string::*;
use crate::text::str_eq;
use crate::wcoerror::WCOError;

verus! {

/// The number of events in the catalog.
pub const EVENT_COUNT: usize = 17;

/// A competition event.
#[derive(Debug, Clone, Copy, PartialEq, Eq, PartialOrd, Ord, Hash, Structural)]
pub enum Event {
    Ev333,
    Ev222,
    Ev444,
    Ev555,
    Ev666,
    Ev777,
    Ev333bf,
    Ev333fm,
    Ev333oh,
    EvClock,
    EvMinx,
    EvPyram,
    EvSkewb,
    EvSq1,
    Ev444bf,
    Ev555bf,
    Ev333mbf,
}

impl Event {
    /// The place of the event in the catalog, counted from zero.
    pub open spec fn spec_ordinal(&self) -> int {
        match self {
            Event::Ev333 => 0,
            Event::Ev222 => 1,
            Event::Ev444 => 2,
            Event::Ev555 => 3,
            Event::Ev666 => 4,
            Event::Ev777 => 5,
            Event::Ev333bf => 6,
            Event::Ev333fm => 7,
            Event::Ev333oh => 8,
            Event::EvClock => 9,
            Event::EvMinx => 10,
            Event::EvPyram => 11,
            Event::EvSkewb => 12,
            Event::EvSq1 => 13,
            Event::Ev444bf => 14,
            Event::Ev555bf => 15,
            Event::Ev333mbf => 16,
        }
    }

    /// The short code of the event, as used in links and file names.
    pub open spec fn spec_code_name(&self) -> Seq<char> {
        match self {
            Event::Ev333 => "333"@,
            Event::Ev222 => "222"@,
            Event::Ev444 => "444"@,
            Event::Ev555 => "555"@,
            Event::Ev666 => "666"@,
            Event::Ev777 => "777"@,
            Event::Ev333bf => "333bf"@,
            Event::Ev333fm => "333fm"@,
            Event::Ev333oh => "333oh"@,
            Event::EvClock => "clock"@,
            Event::EvMinx => "minx"@,
            Event::EvPyram => "pyram"@,
            Event::EvSkewb => "skewb"@,
            Event::EvSq1 => "sq1"@,
            Event::Ev444bf => "444bf"@,
            Event::Ev555bf => "555bf"@,
            Event::Ev333mbf => "333mbf"@,
        }
    }

    /// The name of the event as shown to readers.
    pub open spec fn spec_pretty_name(&self) -> Seq<char> {
        match self {
            Event::Ev333 => "3x3x3 Cube"@,
            Event::Ev222 => "2x2x2 Cube"@,
            Event::Ev444 => "4x4x4 Cube"@,
            Event::Ev555 => "5x5x5 Cube"@,
            Event::Ev666 => "6x6x6 Cube"@,
            Event::Ev777 => "7x7x7 Cube"@,
            Event::Ev333bf => "3x3x3 Blindfolded"@,
            Event::Ev333fm => "3x3x3 Fewest Moves"@,
            Event::Ev333oh => "3x3x3 One-Handed"@,
            Event::EvClock => "Clock"@,
            Event::EvMinx => "Megaminx"@,
            Event::EvPyram => "Pyraminx"@,
            Event::EvSkewb => "Skewb"@,
            Event::EvSq1 => "Square-1"@,
            Event::Ev444bf => "4x4x4 Blindfolded"@,
            Event::Ev555bf => "5x5x5 Blindfolded"@,
            Event::Ev333mbf => "3x3x3 Multi-Blind"@,
        }
    }

    /// Whether the event is ranked by an average of several attempts rather
    /// than by the single best attempt.
    pub open spec fn spec_use_average(&self) -> bool {
        match self {
            Event::Ev333 => true,
            Event::Ev222 => true,
            Event::Ev444 => true,
            Event::Ev555 => true,
            Event::Ev666 => true,
            Event::Ev777 => true,
            Event::Ev333bf => false,
            Event::Ev333fm => true,
            Event::Ev333oh => true,
            Event::EvClock => true,
            Event::EvMinx => true,
            Event::EvPyram => true,
            Event::EvSkewb => true,
            Event::EvSq1 => true,
            Event::Ev444bf => false,
            Event::Ev555bf => false,
            Event::Ev333mbf => false,
        }
    }

    /// The name of the event as shown to readers.
    pub fn pretty_name(&self) -> (name: &'static str)
        ensures
            name@ == self.spec_pretty_name(),
    {
        match self {
            Event::Ev333 => "3x3x3 Cube",
            Event::Ev222 => "2x2x2 Cube",
            Event::Ev444 => "4x4x4 Cube",
            Event::Ev555 => "5x5x5 Cube",
            Event::Ev666 => "6x6x6 Cube",
            Event::Ev777 => "7x7x7 Cube",
            Event::Ev333bf => "3x3x3 Blindfolded",
            Event::Ev333fm => "3x3x3 Fewest Moves",
            Event::Ev333oh => "3x3x3 One-Handed",
            Event::EvClock => "Clock",
            Event::EvMinx => "Megaminx",
            Event::EvPyram => "Pyraminx",
            Event::EvSkewb => "Skewb",
            Event::EvSq1 => "Square-1",
            Event::Ev444bf => "4x4x4 Blindfolded",
            Event::Ev555bf => "5x5x5 Blindfolded",
            Event::Ev333mbf => "3x3x3 Multi-Blind",
        }
    }

    /// The short code of the event, as used in links and file names.
    pub fn code_name(&self) -> (code: &'static str)
        ensures
            code@ == self.spec_code_name(),
    {
        match self {
            Event::Ev333 => "333",
            Event::Ev222 => "222",
            Event::Ev444 => "444",
            Event::Ev555 => "555",
            Event::Ev666 => "666",
            Event::Ev777 => "777",
            Event::Ev333bf => "333bf",
            Event::Ev333fm => "333fm",
            Event::Ev333oh => "333oh",
            Event::EvClock => "clock",
            Event::EvMinx => "minx",
            Event::EvPyram => "pyram",
            Event::EvSkewb => "skewb",
            Event::EvSq1 => "sq1",
            Event::Ev444bf => "444bf",
            Event::Ev555bf => "555bf",
            Event::Ev333mbf => "333mbf",
        }
    }

    /// Whether the event is ranked by an average of several attempts rather
    /// than by the single best attempt.
    #[verifier::when_used_as_spec(spec_use_average)]
    pub fn use_average(&self) -> (average: bool)
        ensures
            average == self.spec_use_average(),
    {
        match self {
            Event::Ev333 => true,
            Event::Ev222 => true,
            Event::Ev444 => true,
            Event::Ev555 => true,
            Event::Ev666 => true,
            Event::Ev777 => true,
            Event::Ev333bf => false,
            Event::Ev333fm => true,
            Event::Ev333oh => true,
            Event::EvClock => true,
            Event::EvMinx => true,
            Event::EvPyram => true,
            Event::EvSkewb => true,
            Event::EvSq1 => true,
            Event::Ev444bf => false,
            Event::Ev555bf => false,
            Event::Ev333mbf => false,
        }
    }

    /// The place of the event in the catalog, counted from zero.
    pub fn ordinal(&self) -> (place: usize)
        ensures
            place == self.spec_ordinal(),
            place < EVENT_COUNT,
    {
        match self {
            Event::Ev333 => 0,
            Event::Ev222 => 1,
            Event::Ev444 => 2,
            Event::Ev555 => 3,
            Event::Ev666 => 4,
            Event::Ev777 => 5,
            Event::Ev333bf => 6,
            Event::Ev333fm => 7,
            Event::Ev333oh => 8,
            Event::EvClock => 9,
            Event::EvMinx => 10,
            Event::EvPyram => 11,
            Event::EvSkewb => 12,
            Event::EvSq1 => 13,
            Event::Ev444bf => 14,
            Event::Ev555bf => 15,
            Event::Ev333mbf => 16,
        }
    }

    /// The event at `place` in the catalog, if the catalog is that long.
    pub fn from_ordinal(place: usize) -> (event: Option<Event>)
        ensures
            place < EVENT_COUNT ==> event is Some && event->0.spec_ordinal() == place,
            place >= EVENT_COUNT ==> event is None,
    {
        match place {
            0 => Some(Event::Ev333),
            1 => Some(Event::Ev222),
            2 => Some(Event::Ev444),
            3 => Some(Event::Ev555),
            4 => Some(Event::Ev666),
            5 => Some(Event::Ev777),
            6 => Some(Event::Ev333bf),
            7 => Some(Event::Ev333fm),
            8 => Some(Event::Ev333oh),
            9 => Some(Event::EvClock),
            10 => Some(Event::EvMinx),
            11 => Some(Event::EvPyram),
            12 => Some(Event::EvSkewb),
            13 => Some(Event::EvSq1),
            14 => Some(Event::Ev444bf),
            15 => Some(Event::Ev555bf),
            16 => Some(Event::Ev333mbf),
            _ => None,
        }
    }

    /// The event that `value` is the code of. Any other text is refused with
    /// `UnknownEvent`, which then carries the text.
    pub fn try_from(value: &str) -> (found: Result<Event, WCOError>)
        ensures
            match found {
                Ok(event) => event_with_code(value@) == Some(event),
                Err(WCOError::UnknownEvent(code)) => event_with_code(value@) is None && code@
                    == value@,
                Err(_) => false,
            },
    {
        let mut place: usize = 0;
        while place < EVENT_COUNT
            invariant
                place <= EVENT_COUNT,
                forall|event: Event|
                    event.spec_ordinal() < place ==> value@ != event.spec_code_name(),
            decreases EVENT_COUNT - place,
        {
            match Event::from_ordinal(place) {
                Some(event) => {
                    if str_eq(value, event.code_name()) {
                        proof {
                            lemma_code_lookup(event);
                        }
                        return Ok(event);
                    }
                    assert forall|other: Event| other.spec_ordinal() < place + 1 implies value@
                        != other.spec_code_name() by {
                        if other.spec_ordinal() == place {
                            assert(other == event);
                        }
                    }
                },
                None => {},
            }
            place += 1;
        }
        Err(WCOError::UnknownEvent(String::from_str(value)))
    }
}

/// The event with the code `code`, where the catalog holds one.
pub open spec fn event_with_code(code: Seq<char>) -> Option<Event> {
    if exists|event: Event| event.spec_code_name() == code {
        Some(choose|event: Event| event.spec_code_name() == code)
    } else {
        None
    }
}

/// Every event has a place in the catalog, and no two share one.
pub proof fn lemma_ordinal_injective(a: Event, b: Event)
    ensures
        0 <= a.spec_ordinal() < EVENT_COUNT,
        a.spec_ordinal() == b.spec_ordinal() ==> a == b,
{
}

/// The length of `text`, its first character and the one at `place`, which
/// together tell the texts of the catalog apart.
spec fn text_key(text: Seq<char>, place: int) -> (nat, char, char) {
    (text.len(), text[0], if text.len() > place { text[place] } else { ' ' })
}

/// No two events share a code.
pub proof fn lemma_code_name_injective(a: Event, b: Event)
    requires
        a.spec_code_name() == b.spec_code_name(),
    ensures
        a == b,
{
    match a {
        Event::Ev333 => {
            reveal_strlit("333");
            assert(text_key(a.spec_code_name(), 3) == (3nat, '3', ' '));
        },
        Event::Ev222 => {
            reveal_strlit("222");
            assert(text_key(a.spec_code_name(), 3) == (3nat, '2', ' '));
        },
        Event::Ev444 => {
            reveal_strlit("444");
            assert(text_key(a.spec_code_name(), 3) == (3nat, '4', ' '));
        },
        Event::Ev555 => {
            reveal_strlit("555");
            assert(text_key(a.spec_code_name(), 3) == (3nat, '5', ' '));
        },
        Event::Ev666 => {
            reveal_strlit("666");
            assert(text_key(a.spec_code_name(), 3) == (3nat, '6', ' '));
        },
        Event::Ev777 => {
            reveal_strlit("777");
            assert(text_key(a.spec_code_name(), 3) == (3nat, '7', ' '));
        },
        Event::Ev333bf => {
            reveal_strlit("333bf");
            assert(text_key(a.spec_code_name(), 3) == (5nat, '3', 'b'));
        },
        Event::Ev333fm => {
            reveal_strlit("333fm");
            assert(text_key(a.spec_code_name(), 3) == (5nat, '3', 'f'));
        },
        Event::Ev333oh => {
            reveal_strlit("333oh");
            assert(text_key(a.spec_code_name(), 3) == (5nat, '3', 'o'));
        },
        Event::EvClock => {
            reveal_strlit("clock");
            assert(text_key(a.spec_code_name(), 3) == (5nat, 'c', 'c'));
        },
        Event::EvMinx => {
            reveal_strlit("minx");
            assert(text_key(a.spec_code_name(), 3) == (4nat, 'm', 'x'));
        },
        Event::EvPyram => {
            reveal_strlit("pyram");
            assert(text_key(a.spec_code_name(), 3) == (5nat, 'p', 'a'));
        },
        Event::EvSkewb => {
            reveal_strlit("skewb");
            assert(text_key(a.spec_code_name(), 3) == (5nat, 's', 'w'));
        },
        Event::EvSq1 => {
            reveal_strlit("sq1");
            assert(text_key(a.spec_code_name(), 3) == (3nat, 's', ' '));
        },
        Event::Ev444bf => {
            reveal_strlit("444bf");
            assert(text_key(a.spec_code_name(), 3) == (5nat, '4', 'b'));
        },
        Event::Ev555bf => {
            reveal_strlit("555bf");
            assert(text_key(a.spec_code_name(), 3) == (5nat, '5', 'b'));
        },
        Event::Ev333mbf => {
            reveal_strlit("333mbf");
            assert(text_key(a.spec_code_name(), 3) == (6nat, '3', 'm'));
        },
    }
    match b {
        Event::Ev333 => {
            reveal_strlit("333");
            assert(text_key(b.spec_code_name(), 3) == (3nat, '3', ' '));
        },
        Event::Ev222 => {
            reveal_strlit("222");
            assert(text_key(b.spec_code_name(), 3) == (3nat, '2', ' '));
        },
        Event::Ev444 => {
            reveal_strlit("444");
            assert(text_key(b.spec_code_name(), 3) == (3nat, '4', ' '));
        },
        Event::Ev555 => {
            reveal_strlit("555");
            assert(text_key(b.spec_code_name(), 3) == (3nat, '5', ' '));
        },
        Event::Ev666 => {
            reveal_strlit("666");
            assert(text_key(b.spec_code_name(), 3) == (3nat, '6', ' '));
        },
        Event::Ev777 => {
            reveal_strlit("777");
            assert(text_key(b.spec_code_name(), 3) == (3nat, '7', ' '));
        },
        Event::Ev333bf => {
            reveal_strlit("333bf");
            assert(text_key(b.spec_code_name(), 3) == (5nat, '3', 'b'));
        },
        Event::Ev333fm => {
            reveal_strlit("333fm");
            assert(text_key(b.spec_code_name(), 3) == (5nat, '3', 'f'));
        },
        Event::Ev333oh => {
            reveal_strlit("333oh");
            assert(text_key(b.spec_code_name(), 3) == (5nat, '3', 'o'));
        },
        Event::EvClock => {
            reveal_strlit("clock");
            assert(text_key(b.spec_code_name(), 3) == (5nat, 'c', 'c'));
        },
        Event::EvMinx => {
            reveal_strlit("minx");
            assert(text_key(b.spec_code_name(), 3) == (4nat, 'm', 'x'));
        },
        Event::EvPyram => {
            reveal_strlit("pyram");
            assert(text_key(b.spec_code_name(), 3) == (5nat, 'p', 'a'));
        },
        Event::EvSkewb => {
            reveal_strlit("skewb");
            assert(text_key(b.spec_code_name(), 3) == (5nat, 's', 'w'));
        },
        Event::EvSq1 => {
            reveal_strlit("sq1");
            assert(text_key(b.spec_code_name(), 3) == (3nat, 's', ' '));
        },
        Event::Ev444bf => {
            reveal_strlit("444bf");
            assert(text_key(b.spec_code_name(), 3) == (5nat, '4', 'b'));
        },
        Event::Ev555bf => {
            reveal_strlit("555bf");
            assert(text_key(b.spec_code_name(), 3) == (5nat, '5', 'b'));
        },
        Event::Ev333mbf => {
            reveal_strlit("333mbf");
            assert(text_key(b.spec_code_name(), 3) == (6nat, '3', 'm'));
        },
    }
}

/// No two events share a display name.
pub proof fn lemma_pretty_name_injective(a: Event, b: Event)
    requires
        a.spec_pretty_name() == b.spec_pretty_name(),
    ensures
        a == b,
{
    match a {
        Event::Ev333 => {
            reveal_strlit("3x3x3 Cube");
            assert(text_key(a.spec_pretty_name(), 6) == (10nat, '3', 'C'));
        },
        Event::Ev222 => {
            reveal_strlit("2x2x2 Cube");
            assert(text_key(a.spec_pretty_name(), 6) == (10nat, '2', 'C'));
        },
        Event::Ev444 => {
            reveal_strlit("4x4x4 Cube");
            assert(text_key(a.spec_pretty_name(), 6) == (10nat, '4', 'C'));
        },
        Event::Ev555 => {
            reveal_strlit("5x5x5 Cube");
            assert(text_key(a.spec_pretty_name(), 6) == (10nat, '5', 'C'));
        },
        Event::Ev666 => {
            reveal_strlit("6x6x6 Cube");
            assert(text_key(a.spec_pretty_name(), 6) == (10nat, '6', 'C'));
        },
        Event::Ev777 => {
            reveal_strlit("7x7x7 Cube");
            assert(text_key(a.spec_pretty_name(), 6) == (10nat, '7', 'C'));
        },
        Event::Ev333bf => {
            reveal_strlit("3x3x3 Blindfolded");
            assert(text_key(a.spec_pretty_name(), 6) == (17nat, '3', 'B'));
        },
        Event::Ev333fm => {
            reveal_strlit("3x3x3 Fewest Moves");
            assert(text_key(a.spec_pretty_name(), 6) == (18nat, '3', 'F'));
        },
        Event::Ev333oh => {
            reveal_strlit("3x3x3 One-Handed");
            assert(text_key(a.spec_pretty_name(), 6) == (16nat, '3', 'O'));
        },
        Event::EvClock => {
            reveal_strlit("Clock");
            assert(text_key(a.spec_pretty_name(), 6) == (5nat, 'C', ' '));
        },
        Event::EvMinx => {
            reveal_strlit("Megaminx");
            assert(text_key(a.spec_pretty_name(), 6) == (8nat, 'M', 'n'));
        },
        Event::EvPyram => {
            reveal_strlit("Pyraminx");
            assert(text_key(a.spec_pretty_name(), 6) == (8nat, 'P', 'n'));
        },
        Event::EvSkewb => {
            reveal_strlit("Skewb");
            assert(text_key(a.spec_pretty_name(), 6) == (5nat, 'S', ' '));
        },
        Event::EvSq1 => {
            reveal_strlit("Square-1");
            assert(text_key(a.spec_pretty_name(), 6) == (8nat, 'S', '-'));
        },
        Event::Ev444bf => {
            reveal_strlit("4x4x4 Blindfolded");
            assert(text_key(a.spec_pretty_name(), 6) == (17nat, '4', 'B'));
        },
        Event::Ev555bf => {
            reveal_strlit("5x5x5 Blindfolded");
            assert(text_key(a.spec_pretty_name(), 6) == (17nat, '5', 'B'));
        },
        Event::Ev333mbf => {
            reveal_strlit("3x3x3 Multi-Blind");
            assert(text_key(a.spec_pretty_name(), 6) == (17nat, '3', 'M'));
        },
    }
    match b {
        Event::Ev333 => {
            reveal_strlit("3x3x3 Cube");
            assert(text_key(b.spec_pretty_name(), 6) == (10nat, '3', 'C'));
        },
        Event::Ev222 => {
            reveal_strlit("2x2x2 Cube");
            assert(text_key(b.spec_pretty_name(), 6) == (10nat, '2', 'C'));
        },
        Event::Ev444 => {
            reveal_strlit("4x4x4 Cube");
            assert(text_key(b.spec_pretty_name(), 6) == (10nat, '4', 'C'));
        },
        Event::Ev555 => {
            reveal_strlit("5x5x5 Cube");
            assert(text_key(b.spec_pretty_name(), 6) == (10nat, '5', 'C'));
        },
        Event::Ev666 => {
            reveal_strlit("6x6x6 Cube");
            assert(text_key(b.spec_pretty_name(), 6) == (10nat, '6', 'C'));
        },
        Event::Ev777 => {
            reveal_strlit("7x7x7 Cube");
            assert(text_key(b.spec_pretty_name(), 6) == (10nat, '7', 'C'));
        },
        Event::Ev333bf => {
            reveal_strlit("3x3x3 Blindfolded");
            assert(text_key(b.spec_pretty_name(), 6) == (17nat, '3', 'B'));
        },
        Event::Ev333fm => {
            reveal_strlit("3x3x3 Fewest Moves");
            assert(text_key(b.spec_pretty_name(), 6) == (18nat, '3', 'F'));
        },
        Event::Ev333oh => {
            reveal_strlit("3x3x3 One-Handed");
            assert(text_key(b.spec_pretty_name(), 6) == (16nat, '3', 'O'));
        },
        Event::EvClock => {
            reveal_strlit("Clock");
            assert(text_key(b.spec_pretty_name(), 6) == (5nat, 'C', ' '));
        },
        Event::EvMinx => {
            reveal_strlit("Megaminx");
            assert(text_key(b.spec_pretty_name(), 6) == (8nat, 'M', 'n'));
        },
        Event::EvPyram => {
            reveal_strlit("Pyraminx");
            assert(text_key(b.spec_pretty_name(), 6) == (8nat, 'P', 'n'));
        },
        Event::EvSkewb => {
            reveal_strlit("Skewb");
            assert(text_key(b.spec_pretty_name(), 6) == (5nat, 'S', ' '));
        },
        Event::EvSq1 => {
            reveal_strlit("Square-1");
            assert(text_key(b.spec_pretty_name(), 6) == (8nat, 'S', '-'));
        },
        Event::Ev444bf => {
            reveal_strlit("4x4x4 Blindfolded");
            assert(text_key(b.spec_pretty_name(), 6) == (17nat, '4', 'B'));
        },
        Event::Ev555bf => {
            reveal_strlit("5x5x5 Blindfolded");
            assert(text_key(b.spec_pretty_name(), 6) == (17nat, '5', 'B'));
        },
        Event::Ev333mbf => {
            reveal_strlit("3x3x3 Multi-Blind");
            assert(text_key(b.spec_pretty_name(), 6) == (17nat, '3', 'M'));
        },
    }
}

/// The catalog is a one-to-one table: the code of an event is looked up as
/// that event and as no other.
pub proof fn lemma_code_lookup(event: Event)
    ensures
        event_with_code(event.spec_code_name()) == Some(event),
{
    let found = choose|other: Event| other.spec_code_name() == event.spec_code_name();
    lemma_code_name_injective(found, event);
}

/// A text that is looked up as an event is the code of that event.
pub proof fn lemma_code_found(code: Seq<char>)
    ensures
        event_with_code(code) matches Some(event) ==> event.spec_code_name() == code,
{
}

} // verus!
