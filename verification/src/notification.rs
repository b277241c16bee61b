//! A recurring reminder rule: title, message, time of day and weekday mask,
//! together with the next-occurrence algorithm that the schedule drives.

use vstd::prelude::*;
use vstd::string::*;

use crate::day;
use crate::error::Error;
use crate::instant::Instant;
use crate::instant::MAX_DAY;
use crate::instant::SECS_PER_HOUR;
use crate::instant::SECS_PER_MINUTE;

verus! {

/// Whether `c` is a decimal digit.
pub open spec fn is_digit(c: char) -> bool {
    48 <= c as u32 <= 57
}

/// The value of the decimal digit `c`.
pub open spec fn digit_val(c: char) -> int {
    c as u32 - 48
}

/// Whether `s` is a well-formed `"HH:MM"` string: two digits, a colon, two
/// digits.
pub open spec fn hhmm_shape(s: Seq<char>) -> bool {
    &&& s.len() == 5
    &&& is_digit(s[0])
    &&& is_digit(s[1])
    &&& s[2] == ':'
    &&& is_digit(s[3])
    &&& is_digit(s[4])
}

/// The hour component of a well-formed `"HH:MM"` string.
pub open spec fn hhmm_hour(s: Seq<char>) -> int {
    digit_val(s[0]) * 10 + digit_val(s[1])
}

/// The minute component of a well-formed `"HH:MM"` string.
pub open spec fn hhmm_minute(s: Seq<char>) -> int {
    digit_val(s[3]) * 10 + digit_val(s[4])
}

#[derive(Debug)]
pub struct Notification {
    id: usize,
    title: String,
    message: String,
    hour: u8,
    minute: u8,
    day: u8,
}

impl Notification {
    /// The rule's store-assigned identity.
    pub closed spec fn spec_id(self) -> usize {
        self.id
    }

    /// The rule's title.
    pub closed spec fn spec_title(self) -> Seq<char> {
        self.title@
    }

    /// The rule's message body.
    pub closed spec fn spec_message(self) -> Seq<char> {
        self.message@
    }

    /// The hour of the rule's time of day.
    pub closed spec fn spec_hour(self) -> u8 {
        self.hour
    }

    /// The minute of the rule's time of day.
    pub closed spec fn spec_minute(self) -> u8 {
        self.minute
    }

    /// The rule's weekday mask.
    pub closed spec fn spec_day(self) -> u8 {
        self.day
    }

    /// What construction establishes: a real time of day and a mask that
    /// names at least one weekday.
    pub open spec fn valid(self) -> bool {
        &&& self.spec_hour() < 24
        &&& self.spec_minute() < 60
        &&& day::mask_ok(self.spec_day())
    }

    /// The rule's time of day as a second past midnight.
    pub open spec fn tod_sec(self) -> int {
        self.spec_hour() * (SECS_PER_HOUR as int) + self.spec_minute() * (SECS_PER_MINUTE as int)
    }

    /// Whether the instant `t` lies on one of the rule's weekdays, exactly at
    /// its time of day.
    pub open spec fn fires_at(self, t: Instant) -> bool {
        &&& t.sec == self.tod_sec()
        &&& day::mask_has(self.spec_day(), t.weekday())
    }

    /// The first day on which an occurrence at or after `now` could lie: the
    /// day of `now` if the rule's time of day has not yet passed, else the
    /// next day.
    pub open spec fn start_day(self, now: Instant) -> int {
        if self.tod_sec() >= now.sec {
            now.day as int
        } else {
            now.day + 1
        }
    }

    /// The earliest instant at or after `now` that lies on one of the rule's
    /// weekdays at its time of day.
    pub open spec fn spec_next(self, now: Instant) -> Instant {
        let d0 = self.start_day(now);
        let off = day::first_offset(self.spec_day(), d0 % 7);
        Instant { day: (d0 + off) as u64, sec: self.tod_sec() as u32 }
    }

    /// Builds a rule, parsing and validating its `"HH:MM"` time of day and
    /// validating its weekday mask.
    pub fn new(id: usize, title: String, message: String, time: String, day: u8) -> (r: Result<
        Notification,
        Error,
    >)
        ensures
            hhmm_shape(time@) && hhmm_hour(time@) < 24 && hhmm_minute(time@) < 60
                && day::mask_ok(day) ==> (r matches Ok(_)),
            !hhmm_shape(time@) ==> r == Err::<Notification, Error>(Error::Time),
            hhmm_shape(time@) && !(hhmm_hour(time@) < 24 && hhmm_minute(time@) < 60) ==> r
                == Err::<Notification, Error>(Error::InvalidTime),
            hhmm_shape(time@) && hhmm_hour(time@) < 24 && hhmm_minute(time@) < 60
                && !day::mask_ok(day) ==> r == Err::<Notification, Error>(Error::InvalidDay),
            r matches Ok(n) ==> {
                &&& hhmm_shape(time@)
                &&& n.spec_id() == id
                &&& n.spec_title() == title@
                &&& n.spec_message() == message@
                &&& n.spec_hour() == hhmm_hour(time@)
                &&& n.spec_minute() == hhmm_minute(time@)
                &&& n.spec_day() == day
                &&& n.valid()
            },
    {
        let t = time.as_str();
        if t.unicode_len() != 5 {
            return Err(Error::Time);
        }
        let c0 = t.get_char(0);
        let c1 = t.get_char(1);
        let c2 = t.get_char(2);
        let c3 = t.get_char(3);
        let c4 = t.get_char(4);
        if !(digit_of(c0) && digit_of(c1) && c2 == ':' && digit_of(c3) && digit_of(c4)) {
            return Err(Error::Time);
        }
        let hour: u32 = (c0 as u32 - 48) * 10 + (c1 as u32 - 48);
        let minute: u32 = (c3 as u32 - 48) * 10 + (c4 as u32 - 48);
        if hour > 23 || minute > 59 {
            return Err(Error::InvalidTime);
        }
        if day == 0 || day >= 0x80 {
            return Err(Error::InvalidDay);
        }
        Ok(Notification { id, title, message, hour: hour as u8, minute: minute as u8, day })
    }

    /// The earliest occurrence of the rule at or after `now`: the instant
    /// whose time of day is the rule's, whose weekday the mask contains, and
    /// which no earlier such instant at or after `now` precedes. Fails
    /// defensively on a rule whose time of day or mask construction would
    /// have rejected.
    pub fn next(&self, now: &Instant) -> (r: Result<Instant, Error>)
        requires
            now.wf(),
            now.in_range(),
        ensures
            self.valid() ==> (r matches Ok(t) && t == self.spec_next(*now)),
            self.valid() ==> (r matches Ok(t) && {
                &&& self.fires_at(t)
                &&& now.as_sec() <= t.as_sec()
                &&& t.wf()
                &&& now.day <= t.day <= now.day + 7
            }),
            !(self.spec_hour() < 24 && self.spec_minute() < 60) ==> r == Err::<Instant, Error>(
                Error::InvalidTime,
            ),
            self.spec_hour() < 24 && self.spec_minute() < 60 && !day::mask_ok(self.spec_day())
                ==> r == Err::<Instant, Error>(Error::InvalidDay),
    {
        if self.hour >= 24 || self.minute >= 60 {
            return Err(Error::InvalidTime);
        }
        if self.day == 0 || self.day >= 0x80 {
            return Err(Error::InvalidDay);
        }
        let tod: u32 = (self.hour as u32) * SECS_PER_HOUR + (self.minute as u32) * SECS_PER_MINUTE;
        let start: u64 = if tod >= now.sec {
            now.day
        } else {
            now.day + 1
        };
        let ghost w0 = (start as int) % 7;
        let mut j: u8 = 0;
        while j < 7
            invariant
                self.valid(),
                now.wf(),
                now.in_range(),
                tod == self.tod_sec(),
                start == self.start_day(*now),
                start <= now.day + 1,
                w0 == (start as int) % 7,
                j <= 7,
                forall|k: int| 0 <= k < j ==> !day::mask_has(self.spec_day(), #[trigger] ((w0 + k) % 7)),
            decreases 7 - j,
        {
            let w: u8 = ((start + (j as u64)) % 7) as u8;
            proof {
                vstd::arithmetic::div_mod::lemma_add_mod_noop(start as int, j as int, 7);
                assert((w0 + j) % 7 == ((start + j) as int) % 7);
            }
            if self.day & day::day_bit_of(w) != 0 {
                proof {
                    day::lemma_first_offset_is(self.spec_day(), w0, j as int);
                    lemma_next_occurrence(*self, *now);
                }
                return Ok(Instant { day: start + (j as u64), sec: tod });
            }
            proof {
                assert(!day::mask_has(self.spec_day(), (w0 + (j as int)) % 7));
            }
            j = j + 1;
        }
        proof {
            day::lemma_first_offset_hits(self.spec_day(), w0);
            let off = day::first_offset(self.spec_day(), w0);
            assert(!day::mask_has(self.spec_day(), (w0 + off) % 7));
            assert(false);
        }
        Err(Error::InvalidDay)
    }

    /// The rule's title, for display and dispatch.
    pub fn get_title(&self) -> (r: &str)
        ensures
            r@ == self.spec_title(),
    {
        self.title.as_str()
    }

    /// The rule's message body, for dispatch.
    pub fn get_message(&self) -> (r: &str)
        ensures
            r@ == self.spec_message(),
    {
        self.message.as_str()
    }

    /// The rule's weekday mask, for display.
    pub fn get_day(&self) -> (r: u8)
        ensures
            r == self.spec_day(),
    {
        self.day
    }

    /// The rule's store-assigned identity.
    pub fn get_id(&self) -> (r: usize)
        ensures
            r == self.spec_id(),
    {
        self.id
    }

    /// The byte length of the title, for column sizing.
    pub fn get_title_len(&self) -> (r: usize)
        ensures
            r == vstd::utf8::encode_utf8(self.spec_title()).len() as usize,
    {
        let s = self.title.as_str();
        proof {
            assert(s.spec_bytes() == vstd::utf8::encode_utf8(self.spec_title()));
        }
        s.len()
    }

    /// The number of decimal digits of the identity, for column sizing.
    pub fn get_id_len(&self) -> (r: usize)
        ensures
            r == spec_digit_count(self.spec_id() as nat),
    {
        digit_count(self.id)
    }

    /// Whether the rule satisfies what construction establishes; callers
    /// outside the library can test it before asking for occurrences.
    pub fn check_valid(&self) -> (r: bool)
        ensures
            r == self.valid(),
    {
        self.hour < 24 && self.minute < 60 && self.day != 0 && self.day < 0x80
    }
}

/// What makes `spec_next` the next occurrence: it is an occurrence, it is
/// not in the past, it lies within a week, and no occurrence at or after
/// `now` comes before it.
pub proof fn lemma_next_occurrence(n: Notification, now: Instant)
    requires
        n.valid(),
        now.wf(),
        now.day <= MAX_DAY + 7,
    ensures
        ({
            let t = n.spec_next(now);
            &&& n.fires_at(t)
            &&& now.as_sec() <= t.as_sec()
            &&& t.wf()
            &&& now.day <= t.day <= now.day + 7
            &&& forall|u: Instant|
                u.wf() && n.fires_at(u) && now.as_sec() <= u.as_sec() ==> t.as_sec() <= u.as_sec()
        }),
{
    let d0 = n.start_day(now);
    let w0 = d0 % 7;
    let mask = n.spec_day();
    let off = day::first_offset(mask, w0);
    let t = n.spec_next(now);
    let tod = n.tod_sec();
    assert(0 <= tod <= 23 * 3600 + 59 * 60);
    assert(now.day <= d0 <= now.day + 1);
    assert(0 <= w0 < 7);
    day::lemma_first_offset_hits(mask, w0);
    assert(0 <= off < 7);
    assert(t.day == d0 + off);
    assert(t.sec == tod);
    vstd::arithmetic::div_mod::lemma_add_mod_noop(d0, off, 7);
    assert(off % 7 == off);
    assert(t.weekday() == (w0 + off) % 7);
    assert(day::mask_has(mask, t.weekday()));
    assert(n.fires_at(t));
    assert(now.as_sec() <= t.as_sec());
    assert forall|u: Instant|
        u.wf() && n.fires_at(u) && now.as_sec() <= u.as_sec() implies t.as_sec()
        <= u.as_sec() by {
        assert(u.sec == tod);
        assert(d0 <= u.day) by {
            if (u.day as int) < d0 {
                assert(u.as_sec() < now.as_sec());
            }
        }
        let k = u.day - d0;
        if k < off {
            vstd::arithmetic::div_mod::lemma_add_mod_noop(d0, k, 7);
            assert(k % 7 == k);
            assert(u.weekday() == ((d0 + k) as int) % 7);
            assert(u.weekday() == (w0 + k) % 7);
            assert(!day::mask_has(mask, (w0 + k) % 7));
            assert(false);
        }
        assert(t.day <= u.day);
    }
}

/// When `now` itself is an occurrence of the rule, the next occurrence is
/// `now`.
pub proof fn lemma_next_at_occurrence(n: Notification, now: Instant)
    requires
        n.valid(),
        now.wf(),
        now.day <= MAX_DAY + 7,
        n.fires_at(now),
    ensures
        n.spec_next(now) == now,
{
    lemma_next_occurrence(n, now);
    let t = n.spec_next(now);
    assert(t.as_sec() <= now.as_sec());
    crate::instant::lemma_as_sec_injective(t, now);
}

/// The next occurrence never lies in the past.
pub proof fn lemma_next_not_past(n: Notification, now: Instant)
    requires
        n.valid(),
        now.wf(),
        now.day <= MAX_DAY + 7,
    ensures
        now.as_sec() <= n.spec_next(now).as_sec(),
{
    lemma_next_occurrence(n, now);
}

/// Recomputing from an occurrence the algorithm itself produced returns that
/// occurrence again.
pub proof fn lemma_next_idempotent(n: Notification, now: Instant)
    requires
        n.valid(),
        now.wf(),
        now.day <= MAX_DAY,
    ensures
        n.spec_next(n.spec_next(now)) == n.spec_next(now),
{
    lemma_next_occurrence(n, now);
    let t = n.spec_next(now);
    lemma_next_at_occurrence(n, t);
}

/// For a rule masked to a single weekday, an instant one minute past the
/// rule's time on that weekday is answered with the occurrence exactly seven
/// days later.
pub proof fn lemma_weekly_wrap(n: Notification, now: Instant, w: int)
    requires
        n.valid(),
        0 <= w < 7,
        n.spec_day() == day::day_bit(w),
        now.wf(),
        now.day <= MAX_DAY + 7,
        now.weekday() == w,
        now.sec == n.tod_sec() + 60,
    ensures
        n.spec_next(now) == (Instant { day: (now.day + 7) as u64, sec: n.tod_sec() as u32 }),
{
    let d0 = n.start_day(now);
    assert(d0 == now.day + 1);
    let w0 = d0 % 7;
    vstd::arithmetic::div_mod::lemma_add_mod_noop(now.day as int, 1, 7);
    assert(w0 == (w + 1) % 7);
    assert forall|v: int| 0 <= v < 7 implies (day::mask_has(n.spec_day(), v) <==> v == w) by {
        day::lemma_day_bit_disjoint(w, v);
    }
    assert forall|k: int| 0 <= k < 6 implies !day::mask_has(
        n.spec_day(),
        #[trigger] ((w0 + k) % 7),
    ) by {
        vstd::arithmetic::div_mod::lemma_add_mod_noop(w + 1, k, 7);
        assert((w0 + k) % 7 == (w + 1 + k) % 7);
        if (w + 1 + k) % 7 == w {
            vstd::arithmetic::div_mod::lemma_add_mod_noop(w, 1 + k, 7);
            assert((w + 1 + k) % 7 == (w % 7 + (1 + k) % 7) % 7);
            assert((1 + k) % 7 == 1 + k);
            assert((w + 1 + k) % 7 == (w + 1 + k) - 7 || (w + 1 + k) % 7 == w + 1 + k);
            assert(false);
        }
        assert(0 <= (w0 + k) % 7 < 7);
    }
    assert(day::mask_has(n.spec_day(), (w0 + 6) % 7)) by {
        vstd::arithmetic::div_mod::lemma_add_mod_noop(w + 1, 6, 7);
        assert((6int) % 7 == 6);
        assert((w0 + 6) % 7 == (w + 7) % 7);
        vstd::arithmetic::div_mod::lemma_add_mod_noop(w, 7, 7);
        assert((7int) % 7 == 0);
        assert(w % 7 == w);
        assert((w + 7) % 7 == w);
    }
    day::lemma_first_offset_is(n.spec_day(), w0, 6);
    assert(n.spec_next(now).day == d0 + 6);
}

/// The column widths that a listing of `rules` needs: the widest identity,
/// in decimal digits, and the widest title, in bytes.
pub fn column_widths(rules: &Vec<Notification>) -> (r: (usize, usize))
    ensures
        forall|i: int|
            0 <= i < rules@.len() ==> spec_digit_count((#[trigger] rules@[i]).spec_id() as nat)
                <= r.0,
        forall|i: int|
            0 <= i < rules@.len() ==> vstd::utf8::encode_utf8(
                (#[trigger] rules@[i]).spec_title(),
            ).len() as usize <= r.1,
        rules@.len() == 0 ==> r == (0usize, 0usize),
        rules@.len() > 0 ==> (exists|i: int|
            0 <= i < rules@.len() && spec_digit_count((#[trigger] rules@[i]).spec_id() as nat)
                == r.0),
        rules@.len() > 0 ==> (exists|i: int|
            0 <= i < rules@.len() && vstd::utf8::encode_utf8(
                (#[trigger] rules@[i]).spec_title(),
            ).len() as usize == r.1),
{
    let mut id_width: usize = 0;
    let mut title_width: usize = 0;
    let mut i: usize = 0;
    while i < rules.len()
        invariant
            i <= rules@.len(),
            forall|k: int|
                0 <= k < i ==> spec_digit_count((#[trigger] rules@[k]).spec_id() as nat)
                    <= id_width,
            forall|k: int|
                0 <= k < i ==> vstd::utf8::encode_utf8(
                    (#[trigger] rules@[k]).spec_title(),
                ).len() as usize <= title_width,
            i == 0 ==> id_width == 0 && title_width == 0,
            i > 0 ==> (exists|k: int|
                0 <= k < i && spec_digit_count((#[trigger] rules@[k]).spec_id() as nat)
                    == id_width),
            i > 0 ==> (exists|k: int|
                0 <= k < i && vstd::utf8::encode_utf8((#[trigger] rules@[k]).spec_title()).len() as usize
                    == title_width),
        decreases rules@.len() - i,
    {
        let idl = rules[i].get_id_len();
        if idl > id_width || i == 0 {
            id_width = idl;
        }
        let tl = rules[i].get_title_len();
        if tl > title_width || i == 0 {
            title_width = tl;
        }
        i = i + 1;
    }
    (id_width, title_width)
}

/// The positions of `rules` in listing order: soonest next occurrence
/// first, rules with equal occurrences keeping their store order. The
/// result visits every rule exactly once.
pub fn order_by_next(rules: &Vec<Notification>, now: &Instant) -> (r: Vec<usize>)
    requires
        forall|i: int| 0 <= i < rules@.len() ==> (#[trigger] rules@[i]).valid(),
        now.wf(),
        now.in_range(),
    ensures
        r@.len() == rules@.len(),
        forall|k: int| 0 <= k < r@.len() ==> #[trigger] r@[k] < rules@.len(),
        forall|k1: int, k2: int|
            0 <= k1 < k2 < r@.len() ==> #[trigger] r@[k1] != #[trigger] r@[k2],
        forall|v: int| 0 <= v < rules@.len() ==> r@.contains(#[trigger] (v as usize)),
        forall|k1: int, k2: int|
            0 <= k1 < k2 < r@.len() ==> rules@[#[trigger] r@[k1] as int].spec_next(
                *now,
            ).as_sec() <= rules@[#[trigger] r@[k2] as int].spec_next(*now).as_sec(),
        forall|k1: int, k2: int|
            0 <= k1 < k2 < r@.len() && rules@[#[trigger] r@[k1] as int].spec_next(*now).as_sec()
                == rules@[#[trigger] r@[k2] as int].spec_next(*now).as_sec() ==> r@[k1] < r@[k2],
{
    let mut keys: Vec<Instant> = Vec::new();
    let mut i: usize = 0;
    while i < rules.len()
        invariant
            now.wf(),
            now.in_range(),
            forall|k: int| 0 <= k < rules@.len() ==> (#[trigger] rules@[k]).valid(),
            i <= rules@.len(),
            keys@.len() == i as int,
            forall|k: int|
                0 <= k < i ==> #[trigger] keys@[k] == rules@[k].spec_next(*now) && keys@[k].wf(),
        decreases rules@.len() - i,
    {
        let key = match rules[i].next(now) {
            Ok(t) => t,
            Err(_) => vstd::pervasive::unreached(),
        };
        keys.push(key);
        i = i + 1;
    }
    let mut order: Vec<usize> = Vec::new();
    let mut i: usize = 0;
    while i < rules.len()
        invariant
            now.wf(),
            now.in_range(),
            i <= rules@.len(),
            keys@.len() == rules@.len(),
            forall|k: int|
                0 <= k < rules@.len() ==> #[trigger] keys@[k] == rules@[k].spec_next(*now)
                    && keys@[k].wf(),
            order@.len() == i as int,
            forall|k: int| 0 <= k < order@.len() ==> #[trigger] order@[k] < i,
            forall|k1: int, k2: int|
                0 <= k1 < k2 < order@.len() ==> #[trigger] order@[k1] != #[trigger] order@[k2],
            forall|v: int| 0 <= v < i ==> order@.contains(#[trigger] (v as usize)),
            forall|k1: int, k2: int|
                0 <= k1 < k2 < order@.len() ==> keys@[#[trigger] order@[k1] as int].as_sec()
                    <= keys@[#[trigger] order@[k2] as int].as_sec(),
            forall|k1: int, k2: int|
                0 <= k1 < k2 < order@.len() && keys@[#[trigger] order@[k1] as int].as_sec()
                    == keys@[#[trigger] order@[k2] as int].as_sec() ==> order@[k1] < order@[k2],
        decreases rules@.len() - i,
    {
        let key_i = keys[i];
        let mut j: usize = 0;
        let mut found = false;
        while j < order.len() && !found
            invariant
                j <= order@.len(),
                keys@.len() == rules@.len(),
                forall|k: int| 0 <= k < order@.len() ==> #[trigger] order@[k] < i < keys@.len(),
                forall|k: int| 0 <= k < order@.len() ==> (#[trigger] keys@[order@[k] as int]).wf(),
                key_i == keys@[i as int],
                key_i.wf(),
                i < keys@.len(),
                forall|k: int|
                    0 <= k < j ==> keys@[#[trigger] order@[k] as int].as_sec() <= key_i.as_sec(),
                found ==> j < order@.len() && key_i.as_sec() < keys@[order@[j as int] as int].as_sec(),
            decreases order@.len() - j + (if found { 0int } else { 1int }),
        {
            let prior = order[j];
            if key_i.lt(&keys[prior]) {
                found = true;
            } else {
                j = j + 1;
            }
        }
        let ghost order0 = order@;
        order.insert(j, i);
        proof {
            assert forall|v: int| 0 <= v < i + 1 implies order@.contains(#[trigger] (v as usize)) by {
                if v == i as int {
                    assert(order@[j as int] == (v as usize));
                } else {
                    assert(order0.contains(v as usize));
                    let w = choose|w: int| 0 <= w < order0.len() && order0[w] == (v as usize);
                    if w < j {
                        assert(order@[w] == (v as usize));
                    } else {
                        assert(order@[w + 1] == (v as usize));
                    }
                }
            }
        }
        i = i + 1;
    }
    order
}

/// Whether `c` is a decimal digit, as executable code.
fn digit_of(c: char) -> (r: bool)
    ensures
        r == is_digit(c),
{
    let u = c as u32;
    48 <= u && u <= 57
}

/// The number of decimal digits in `n`'s usual rendering.
pub open spec fn spec_digit_count(n: nat) -> nat
    decreases n,
{
    if n < 10 {
        1
    } else {
        1 + spec_digit_count(n / 10)
    }
}

/// A power of ten.
pub open spec fn pow10(k: nat) -> nat
    decreases k,
{
    if k == 0 {
        1
    } else {
        10 * pow10((k - 1) as nat)
    }
}

/// Counts the decimal digits of `n`.
fn digit_count(n: usize) -> (r: usize)
    ensures
        r == spec_digit_count(n as nat),
{
    proof {
        reveal_with_fuel(pow10, 21);
        assert(n < pow10(20));
    }
    let mut m: usize = n;
    let mut count: usize = 1;
    let ghost mut width: nat = 20;
    while m >= 10
        invariant
            1 <= count,
            count + spec_digit_count(m as nat) == 1 + spec_digit_count(n as nat),
            (m as nat) < pow10(width),
            count + width == 21,
            1 <= width,
        decreases m,
    {
        proof {
            assert(pow10(width) == 10 * pow10((width - 1) as nat));
            assert(((m / 10) as nat) < pow10((width - 1) as nat));
            width = (width - 1) as nat;
        }
        m = m / 10;
        count = count + 1;
    }
    count
}

} // verus!
