//! The deterministic event log of the post fetcher: a logical clock that
//! stamps each event, and the text of error events.
use vstd::prelude::*;
use crate::text::{chars_of, string_of};
use serde_json::Value as JsonValue;

verus! {

#[verifier::external_type_specification]
#[verifier::external_body]
pub struct ExJsonValue(JsonValue);

#[verifier::external_type_specification]
#[verifier::external_body]
pub struct ExJsonError(serde_json::Error);

pub open spec fn digit_char(d: nat) -> char {
    if d == 0 {
        '0'
    } else if d == 1 {
        '1'
    } else if d == 2 {
        '2'
    } else if d == 3 {
        '3'
    } else if d == 4 {
        '4'
    } else if d == 5 {
        '5'
    } else if d == 6 {
        '6'
    } else if d == 7 {
        '7'
    } else if d == 8 {
        '8'
    } else {
        '9'
    }
}

fn digit(d: u64) -> (r: char)
    ensures
        r == digit_char(d as nat),
{
    if d == 0 {
        '0'
    } else if d == 1 {
        '1'
    } else if d == 2 {
        '2'
    } else if d == 3 {
        '3'
    } else if d == 4 {
        '4'
    } else if d == 5 {
        '5'
    } else if d == 6 {
        '6'
    } else if d == 7 {
        '7'
    } else if d == 8 {
        '8'
    } else {
        '9'
    }
}

/// The decimal text of `n`, without leading zeros.
pub open spec fn decimal(n: nat) -> Seq<char>
    decreases n,
{
    if n < 10 {
        seq![digit_char(n)]
    } else {
        decimal(n / 10).push(digit_char(n % 10))
    }
}

fn push_decimal(n: u64, out: &mut Vec<char>)
    ensures
        final(out)@ == old(out)@ + decimal(n as nat),
    decreases n,
{
    if n >= 10 {
        push_decimal(n / 10, out);
    }
    out.push(digit(n % 10));
    proof {
        if n >= 10 {
            assert(old(out)@ + decimal(n as nat) =~= old(out)@ + decimal((n / 10) as nat) + seq![
                digit_char((n % 10) as nat),
            ]);
        } else {
            assert(old(out)@ + decimal(n as nat) =~= old(out)@.push(digit_char(n as nat)));
        }
    }
    assert(final(out)@ =~= old(out)@ + decimal(n as nat));
}

/// The decimal text of `n`.
pub fn decimal_text(n: u64) -> (r: String)
    ensures
        r@ == decimal(n as nat),
{
    let mut cs: Vec<char> = Vec::new();
    push_decimal(n, &mut cs);
    assert(cs@ =~= decimal(n as nat));
    string_of(&cs)
}

/// An event of the log: its logical time, its type, and its data.
pub struct Event {
    pub t: String,
    pub type_: String,
    pub data: JsonValue,
}

/// An append-only event log with a logical clock that starts at zero and
/// advances by one per event.
pub struct EventBus {
    pub events: Vec<Event>,
    pub clock: u64,
}

impl EventBus {
    pub fn new() -> (r: EventBus)
        ensures
            r.events@.len() == 0,
            r.clock == 0,
    {
        EventBus { events: Vec::new(), clock: 0 }
    }

    /// Appends an event of type `event_type`, stamped with the current
    /// clock in decimal, and advances the clock.
    pub fn emit(&mut self, event_type: &str, data: JsonValue)
        requires
            old(self).clock < u64::MAX,
        ensures
            final(self).clock == old(self).clock + 1,
            final(self).events@.len() == old(self).events@.len() + 1,
            final(self).events@.subrange(0, old(self).events@.len() as int) == old(
                self,
            ).events@,
            final(self).events@.last().t@ == decimal(old(self).clock as nat),
            final(self).events@.last().type_@ == event_type@,
            final(self).events@.last().data == data,
    {
        let t = decimal_text(self.clock);
        let event = Event { t, type_: String::from_str(event_type), data };
        self.events.push(event);
        self.clock = self.clock + 1;
        assert(self.events@.subrange(0, old(self).events@.len() as int) =~= old(self).events@);
    }
}

/// `t` is `w`, a lower-case word, up to ASCII case.
pub open spec fn ascii_case_eq(t: Seq<char>, w: Seq<char>) -> bool {
    t.len() == w.len() && forall|i: int|
        0 <= i < t.len() ==> (#[trigger] t[i] == w[i] || ('A' <= t[i] && t[i] <= 'Z' && (
        t[i] as u32) + 32 == (w[i] as u32)))
}

/// The request headers that a run accepts, compared without ASCII case.
pub open spec fn allowed_header(name: Seq<char>) -> bool {
    ascii_case_eq(name, "accept"@) || ascii_case_eq(name, "content-type"@) || ascii_case_eq(
        name,
        "authorization"@,
    )
}

fn ascii_case_eq_chars(t: &Vec<char>, w: &Vec<char>) -> (r: bool)
    ensures
        r == ascii_case_eq(t@, w@),
{
    if t.len() != w.len() {
        return false;
    }
    let mut i: usize = 0;
    while i < t.len()
        invariant
            i <= t@.len() == w@.len(),
            forall|j: int|
                0 <= j < i ==> (#[trigger] t@[j] == w@[j] || ('A' <= t@[j] && t@[j] <= 'Z' && (
                t@[j] as u32) + 32 == (w@[j] as u32))),
        decreases t@.len() - i,
    {
        let a = t[i];
        let b = w[i];
        if !(a == b || ('A' <= a && a <= 'Z' && (a as u32) + 32 == (b as u32))) {
            return false;
        }
        i = i + 1;
    }
    true
}

fn push_str(cs: &mut Vec<char>, s: &str)
    ensures
        final(cs)@ == old(cs)@ + s@,
{
    let ss = chars_of(s);
    let mut i: usize = 0;
    while i < ss.len()
        invariant
            i <= ss@.len(),
            cs@ == old(cs)@ + ss@.subrange(0, i as int),
        decreases ss@.len() - i,
    {
        cs.push(ss[i]);
        i = i + 1;
        assert(cs@ =~= old(cs)@ + ss@.subrange(0, i as int));
    }
    assert(ss@.subrange(0, i as int) =~= ss@);
}

/// The error events that the request header `key: value` causes: one when
/// the name is not allowed, one when the value is longer than 1024 bytes.
pub fn header_errors(key: &str, value: &str) -> (r: Vec<String>)
    ensures
        r@.map_values(|e: String| e@) == (if allowed_header(key@) {
            Seq::<Seq<char>>::empty()
        } else {
            seq!["unexpected header "@ + key@]
        }) + (if value.len() > 1024 {
            seq!["header "@ + key@ + " too long"@]
        } else {
            Seq::<Seq<char>>::empty()
        }),
{
    let name = chars_of(key);
    let allowed = ascii_case_eq_chars(&name, &chars_of("accept")) || ascii_case_eq_chars(
        &name,
        &chars_of("content-type"),
    ) || ascii_case_eq_chars(&name, &chars_of("authorization"));
    let mut errors: Vec<String> = Vec::new();
    if !allowed {
        let mut cs = chars_of("unexpected header ");
        push_str(&mut cs, key);
        errors.push(string_of(&cs));
    }
    let ghost first = errors@.map_values(|e: String| e@);
    assert(first =~= (if allowed_header(key@) {
        Seq::<Seq<char>>::empty()
    } else {
        seq!["unexpected header "@ + key@]
    }));
    if value.len() > 1024 {
        let mut cs = chars_of("header ");
        push_str(&mut cs, key);
        push_str(&mut cs, " too long");
        errors.push(string_of(&cs));
        assert(errors@.map_values(|e: String| e@) =~= first.push("header "@ + key@ + " too long"@));
    }
    assert(errors@.map_values(|e: String| e@) =~= (if allowed_header(key@) {
        Seq::<Seq<char>>::empty()
    } else {
        seq!["unexpected header "@ + key@]
    }) + (if value.len() > 1024 {
        seq!["header "@ + key@ + " too long"@]
    } else {
        Seq::<Seq<char>>::empty()
    }));
    errors
}

/// The state a run ends in: `failed` when an `error` event was emitted,
/// else `terminated`.
pub fn final_state(events: &Vec<Event>) -> (r: String)
    ensures
        r@ == (if exists|i: int| 0 <= i < events@.len() && (#[trigger] events@[i]).type_@
            == "error"@ {
            "failed"@
        } else {
            "terminated"@
        }),
{
    let error = String::from_str("error");
    let mut i: usize = 0;
    while i < events.len()
        invariant
            i <= events@.len(),
            error@ == "error"@,
            forall|j: int| 0 <= j < i ==> (#[trigger] events@[j]).type_@ != "error"@,
        decreases events@.len() - i,
    {
        if events[i].type_ == error {
            return String::from_str("failed");
        }
        i = i + 1;
    }
    String::from_str("terminated")
}

/// Relies on `Display` for `serde_json::Error`: the error's description.
#[verifier::external_body]
fn json_error_text(err: &serde_json::Error) -> String {
    err.to_string()
}

/// The text of an error event: `status <code>` when a status is known, else
/// `parse error: <description>` for a parse error, else `unknown error`.
pub fn error_message(status: Option<u16>, parse_error: Option<&serde_json::Error>) -> (r: String)
    ensures
        status matches Some(code) ==> r@ == "status "@ + decimal(code as nat),
        status is None && parse_error is Some ==> r@.subrange(0, 13) == "parse error: "@,
        status is None && parse_error is None ==> r@ == "unknown error"@,
{
    if let Some(code) = status {
        let mut cs = chars_of("status ");
        push_decimal(code as u64, &mut cs);
        string_of(&cs)
    } else if let Some(err) = parse_error {
        let mut cs = chars_of("parse error: ");
        let ghost prefix = cs@;
        let detail = json_error_text(err);
        let ds = chars_of(detail.as_str());
        let mut i: usize = 0;
        while i < ds.len()
            invariant
                i <= ds@.len(),
                cs@.len() == prefix.len() + i,
                cs@.subrange(0, prefix.len() as int) == prefix,
            decreases ds@.len() - i,
        {
            cs.push(ds[i]);
            i = i + 1;
            assert(cs@.subrange(0, prefix.len() as int) =~= prefix);
        }
        proof {
            reveal_strlit("parse error: ");
        }
        string_of(&cs)
    } else {
        String::from_str("unknown error")
    }
}

} // verus!
