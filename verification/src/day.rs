//! The weekday mask: an 8-bit set over the seven weekdays, one fixed bit per
//! day. The layout is a persisted format: bit 0 is Sunday, bit 1 Monday, ...,
//! bit 6 Saturday; bit 7 is unused.

use vstd::prelude::*;
use vstd::string::*;

verus! {

pub const SUNDAY: u8 = 0b0000_0001;

pub const MONDAY: u8 = 0b0000_0010;

pub const TUESDAY: u8 = 0b0000_0100;

pub const WEDNESDAY: u8 = 0b0000_1000;

pub const THURSDAY: u8 = 0b0001_0000;

pub const FRIDAY: u8 = 0b0010_0000;

pub const SATURDAY: u8 = 0b0100_0000;

/// The mask bit for weekday index `w` (0 = Sunday, ..., 6 = Saturday).
pub open spec fn day_bit(w: int) -> u8 {
    if w == 0 {
        SUNDAY
    } else if w == 1 {
        MONDAY
    } else if w == 2 {
        TUESDAY
    } else if w == 3 {
        WEDNESDAY
    } else if w == 4 {
        THURSDAY
    } else if w == 5 {
        FRIDAY
    } else if w == 6 {
        SATURDAY
    } else {
        0
    }
}

/// Whether the mask contains weekday index `w`.
pub open spec fn mask_has(mask: u8, w: int) -> bool {
    mask & day_bit(w) != 0
}

/// A mask is usable by a rule when it names at least one weekday and leaves
/// the unused high bit clear.
pub open spec fn mask_ok(mask: u8) -> bool {
    mask != 0 && mask < 0x80
}

/// The mask bit for weekday index `w`, as executable code.
pub fn day_bit_of(w: u8) -> (r: u8)
    requires
        w < 7,
    ensures
        r == day_bit(w as int),
{
    if w == 0 {
        SUNDAY
    } else if w == 1 {
        MONDAY
    } else if w == 2 {
        TUESDAY
    } else if w == 3 {
        WEDNESDAY
    } else if w == 4 {
        THURSDAY
    } else if w == 5 {
        FRIDAY
    } else {
        SATURDAY
    }
}

/// The mask a rule gets from per-day flags: `weekday` ORs in Monday through
/// Friday and `weekend` ORs in Saturday and Sunday.
pub open spec fn spec_to_day(
    sunday: bool,
    monday: bool,
    tuesday: bool,
    wednesday: bool,
    thursday: bool,
    friday: bool,
    saturday: bool,
    weekday: bool,
    weekend: bool,
) -> u8 {
    (if sunday || weekend {
        SUNDAY
    } else {
        0
    }) | (if monday || weekday {
        MONDAY
    } else {
        0
    }) | (if tuesday || weekday {
        TUESDAY
    } else {
        0
    }) | (if wednesday || weekday {
        WEDNESDAY
    } else {
        0
    }) | (if thursday || weekday {
        THURSDAY
    } else {
        0
    }) | (if friday || weekday {
        FRIDAY
    } else {
        0
    }) | (if saturday || weekend {
        SATURDAY
    } else {
        0
    })
}

/// Builds the weekday mask from the per-day flags and the two aggregates.
pub fn to_day(
    sunday: bool,
    monday: bool,
    tuesday: bool,
    wednesday: bool,
    thursday: bool,
    friday: bool,
    saturday: bool,
    weekday: bool,
    weekend: bool,
) -> (r: u8)
    ensures
        r == spec_to_day(
            sunday,
            monday,
            tuesday,
            wednesday,
            thursday,
            friday,
            saturday,
            weekday,
            weekend,
        ),
        r < 0x80,
        mask_has(r, 0) == (sunday || weekend),
        mask_has(r, 1) == (monday || weekday),
        mask_has(r, 2) == (tuesday || weekday),
        mask_has(r, 3) == (wednesday || weekday),
        mask_has(r, 4) == (thursday || weekday),
        mask_has(r, 5) == (friday || weekday),
        mask_has(r, 6) == (saturday || weekend),
{
    let b0: u8 = if sunday || weekend {
        SUNDAY
    } else {
        0
    };
    let b1: u8 = if monday || weekday {
        MONDAY
    } else {
        0
    };
    let b2: u8 = if tuesday || weekday {
        TUESDAY
    } else {
        0
    };
    let b3: u8 = if wednesday || weekday {
        WEDNESDAY
    } else {
        0
    };
    let b4: u8 = if thursday || weekday {
        THURSDAY
    } else {
        0
    };
    let b5: u8 = if friday || weekday {
        FRIDAY
    } else {
        0
    };
    let b6: u8 = if saturday || weekend {
        SATURDAY
    } else {
        0
    };
    let r = b0 | b1 | b2 | b3 | b4 | b5 | b6;
    proof {
        lemma_or_of_bits(b0, b1, b2, b3, b4, b5, b6);
    }
    r
}

/// The smallest number of days to step forward from a day with weekday index
/// `w0` to reach a weekday that the mask contains; 7 when the mask contains
/// none.
pub open spec fn first_offset(mask: u8, w0: int) -> int {
    if mask_has(mask, w0 % 7) {
        0
    } else if mask_has(mask, (w0 + 1) % 7) {
        1
    } else if mask_has(mask, (w0 + 2) % 7) {
        2
    } else if mask_has(mask, (w0 + 3) % 7) {
        3
    } else if mask_has(mask, (w0 + 4) % 7) {
        4
    } else if mask_has(mask, (w0 + 5) % 7) {
        5
    } else if mask_has(mask, (w0 + 6) % 7) {
        6
    } else {
        7
    }
}

/// A usable mask contains a weekday reachable within a week from any
/// starting weekday.
pub proof fn lemma_first_offset_hits(mask: u8, w0: int)
    requires
        mask_ok(mask),
        0 <= w0 < 7,
    ensures
        0 <= first_offset(mask, w0) < 7,
        mask_has(mask, (w0 + first_offset(mask, w0)) % 7),
        forall|k: int|
            0 <= k < first_offset(mask, w0) ==> !mask_has(mask, #[trigger] ((w0 + k) % 7)),
{
    assert(mask & 0x01u8 != 0 || mask & 0x02u8 != 0 || mask & 0x04u8 != 0 || mask & 0x08u8 != 0
        || mask & 0x10u8 != 0 || mask & 0x20u8 != 0 || mask & 0x40u8 != 0) by (bit_vector)
        requires
            mask != 0 && mask < 0x80,
    ;
    if mask & 0x01u8 != 0 {
        assert(mask_has(mask, 0));
    } else if mask & 0x02u8 != 0 {
        assert(mask_has(mask, 1));
    } else if mask & 0x04u8 != 0 {
        assert(mask_has(mask, 2));
    } else if mask & 0x08u8 != 0 {
        assert(mask_has(mask, 3));
    } else if mask & 0x10u8 != 0 {
        assert(mask_has(mask, 4));
    } else if mask & 0x20u8 != 0 {
        assert(mask_has(mask, 5));
    } else {
        assert(mask_has(mask, 6));
    }
    assert(exists|w: int| 0 <= w < 7 && mask_has(mask, w));
    let w = choose|w: int| 0 <= w < 7 && mask_has(mask, w);
    let j = if w >= w0 {
        w - w0
    } else {
        w - w0 + 7
    };
    assert((w0 + j) % 7 == w);
    assert(mask_has(mask, (w0 + j) % 7));
    assert(first_offset(mask, w0) <= j);
    assert forall|k: int| 0 <= k < first_offset(mask, w0) implies !mask_has(
        mask,
        #[trigger] ((w0 + k) % 7),
    ) by {
        if k == 0 {
            assert(!mask_has(mask, (w0 + 0) % 7));
        } else if k == 1 {
            assert(!mask_has(mask, (w0 + 1) % 7));
        } else if k == 2 {
            assert(!mask_has(mask, (w0 + 2) % 7));
        } else if k == 3 {
            assert(!mask_has(mask, (w0 + 3) % 7));
        } else if k == 4 {
            assert(!mask_has(mask, (w0 + 4) % 7));
        } else {
            assert(k == 5);
            assert(!mask_has(mask, (w0 + 5) % 7));
        }
    }
}

/// Where the search lands when the mask's first reachable weekday is known:
/// a hit at step `j`, with every earlier step missing, pins `first_offset`.
pub proof fn lemma_first_offset_is(mask: u8, w0: int, j: int)
    requires
        0 <= w0 < 7,
        0 <= j < 7,
        mask_has(mask, (w0 + j) % 7),
        forall|k: int| 0 <= k < j ==> !mask_has(mask, #[trigger] ((w0 + k) % 7)),
    ensures
        first_offset(mask, w0) == j,
{
    if j > 0 {
        assert(!mask_has(mask, (w0 + 0) % 7));
    }
    if j > 1 {
        assert(!mask_has(mask, (w0 + 1) % 7));
    }
    if j > 2 {
        assert(!mask_has(mask, (w0 + 2) % 7));
    }
    if j > 3 {
        assert(!mask_has(mask, (w0 + 3) % 7));
    }
    if j > 4 {
        assert(!mask_has(mask, (w0 + 4) % 7));
    }
    if j > 5 {
        assert(!mask_has(mask, (w0 + 5) % 7));
    }
}

/// A single-day mask contains exactly its own weekday.
pub proof fn lemma_day_bit_disjoint(w: int, v: int)
    requires
        0 <= w < 7,
        0 <= v < 7,
    ensures
        mask_has(day_bit(w), v) <==> v == w,
{
    let a = day_bit(w);
    let b = day_bit(v);
    assert((a & b != 0) == (a == b)) by (bit_vector)
        requires
            a == 0x01 || a == 0x02 || a == 0x04 || a == 0x08 || a == 0x10 || a == 0x20 || a
                == 0x40,
            b == 0x01 || b == 0x02 || b == 0x04 || b == 0x08 || b == 0x10 || b == 0x20 || b
                == 0x40,
    ;
}

/// How an OR of one optional bit per weekday relates to the tests that
/// `mask_has` makes on the result.
proof fn lemma_or_of_bits(b0: u8, b1: u8, b2: u8, b3: u8, b4: u8, b5: u8, b6: u8)
    requires
        b0 == 0 || b0 == SUNDAY,
        b1 == 0 || b1 == MONDAY,
        b2 == 0 || b2 == TUESDAY,
        b3 == 0 || b3 == WEDNESDAY,
        b4 == 0 || b4 == THURSDAY,
        b5 == 0 || b5 == FRIDAY,
        b6 == 0 || b6 == SATURDAY,
    ensures
        ({
            let r = b0 | b1 | b2 | b3 | b4 | b5 | b6;
            &&& r < 0x80
            &&& (r & SUNDAY != 0) == (b0 == SUNDAY)
            &&& (r & MONDAY != 0) == (b1 == MONDAY)
            &&& (r & TUESDAY != 0) == (b2 == TUESDAY)
            &&& (r & WEDNESDAY != 0) == (b3 == WEDNESDAY)
            &&& (r & THURSDAY != 0) == (b4 == THURSDAY)
            &&& (r & FRIDAY != 0) == (b5 == FRIDAY)
            &&& (r & SATURDAY != 0) == (b6 == SATURDAY)
        }),
{
    assert(({
        let r = b0 | b1 | b2 | b3 | b4 | b5 | b6;
        &&& r < 0x80
        &&& (r & 0x01u8 != 0) == (b0 == 0x01)
        &&& (r & 0x02u8 != 0) == (b1 == 0x02)
        &&& (r & 0x04u8 != 0) == (b2 == 0x04)
        &&& (r & 0x08u8 != 0) == (b3 == 0x08)
        &&& (r & 0x10u8 != 0) == (b4 == 0x10)
        &&& (r & 0x20u8 != 0) == (b5 == 0x20)
        &&& (r & 0x40u8 != 0) == (b6 == 0x40)
    })) by (bit_vector)
        requires
            b0 == 0 || b0 == 0x01,
            b1 == 0 || b1 == 0x02,
            b2 == 0 || b2 == 0x04,
            b3 == 0 || b3 == 0x08,
            b4 == 0 || b4 == 0x10,
            b5 == 0 || b5 == 0x20,
            b6 == 0 || b6 == 0x40,
    ;
}

/// The English name of weekday index `w`.
pub open spec fn day_name(w: int) -> Seq<char> {
    if w == 0 {
        "Sunday"@
    } else if w == 1 {
        "Monday"@
    } else if w == 2 {
        "Tuesday"@
    } else if w == 3 {
        "Wednesday"@
    } else if w == 4 {
        "Thursday"@
    } else if w == 5 {
        "Friday"@
    } else if w == 6 {
        "Saturday"@
    } else {
        Seq::empty()
    }
}

/// One more name joined onto a listing, with a single space between names.
pub open spec fn append_day(acc: Seq<char>, name: Seq<char>) -> Seq<char> {
    if acc.len() == 0 {
        name
    } else {
        acc + " "@ + name
    }
}

/// The listing of the mask's weekdays below index `k`, joined by spaces.
pub open spec fn spec_day_names_upto(mask: u8, k: int) -> Seq<char>
    decreases k,
{
    if k <= 0 {
        Seq::empty()
    } else if mask_has(mask, k - 1) {
        append_day(spec_day_names_upto(mask, k - 1), day_name(k - 1))
    } else {
        spec_day_names_upto(mask, k - 1)
    }
}

/// The listing of all the mask's weekdays, Sunday first, joined by spaces.
pub open spec fn spec_day_names(mask: u8) -> Seq<char> {
    spec_day_names_upto(mask, 7)
}

/// Joins one more day name onto the listing built so far.
fn push_day_name(s: &mut String, name: &str)
    requires
        name@.len() > 0,
    ensures
        final(s)@ == append_day(old(s)@, name@),
{
    if s.as_str().is_empty() {
        s.append(name);
        assert(old(s)@ + name@ =~= name@);
    } else {
        s.append(" ");
        s.append(name);
    }
}

/// Renders the mask as the space-joined names of its weekdays, Sunday first.
pub fn to_string(value: u8) -> (r: String)
    ensures
        r@ == spec_day_names(value),
{
    proof {
        reveal_with_fuel(spec_day_names_upto, 2);
        reveal_strlit("Sunday");
        reveal_strlit("Monday");
        reveal_strlit("Tuesday");
        reveal_strlit("Wednesday");
        reveal_strlit("Thursday");
        reveal_strlit("Friday");
        reveal_strlit("Saturday");
        lemma_single_bit_tests(value);
    }
    let mut s = String::new();
    if value & SUNDAY == SUNDAY {
        push_day_name(&mut s, "Sunday");
    }
    assert(s@ == spec_day_names_upto(value, 1));
    if value & MONDAY == MONDAY {
        push_day_name(&mut s, "Monday");
    }
    assert(s@ == spec_day_names_upto(value, 2));
    if value & TUESDAY == TUESDAY {
        push_day_name(&mut s, "Tuesday");
    }
    assert(s@ == spec_day_names_upto(value, 3));
    if value & WEDNESDAY == WEDNESDAY {
        push_day_name(&mut s, "Wednesday");
    }
    assert(s@ == spec_day_names_upto(value, 4));
    if value & THURSDAY == THURSDAY {
        push_day_name(&mut s, "Thursday");
    }
    assert(s@ == spec_day_names_upto(value, 5));
    if value & FRIDAY == FRIDAY {
        push_day_name(&mut s, "Friday");
    }
    assert(s@ == spec_day_names_upto(value, 6));
    if value & SATURDAY == SATURDAY {
        push_day_name(&mut s, "Saturday");
    }
    assert(s@ == spec_day_names_upto(value, 7));
    s
}

/// Testing a single-bit mask for equality with that bit is the same as
/// testing it for a nonzero intersection.
proof fn lemma_single_bit_tests(value: u8)
    ensures
        (value & 0x01u8 == 0x01) == (value & 0x01u8 != 0),
        (value & 0x02u8 == 0x02) == (value & 0x02u8 != 0),
        (value & 0x04u8 == 0x04) == (value & 0x04u8 != 0),
        (value & 0x08u8 == 0x08) == (value & 0x08u8 != 0),
        (value & 0x10u8 == 0x10) == (value & 0x10u8 != 0),
        (value & 0x20u8 == 0x20) == (value & 0x20u8 != 0),
        (value & 0x40u8 == 0x40) == (value & 0x40u8 != 0),
{
    assert((value & 0x01u8 == 0x01) == (value & 0x01u8 != 0) && (value & 0x02u8 == 0x02) == (value
        & 0x02u8 != 0) && (value & 0x04u8 == 0x04) == (value & 0x04u8 != 0) && (value & 0x08u8
        == 0x08) == (value & 0x08u8 != 0) && (value & 0x10u8 == 0x10) == (value & 0x10u8 != 0) && (
    value & 0x20u8 == 0x20) == (value & 0x20u8 != 0) && (value & 0x40u8 == 0x40) == (value & 0x40u8
        != 0)) by (bit_vector);
}

} // verus!
