//! Data model of the application: time blocks, attachments, priorities,
//! brain dumps, time intervals, and the calendar records mirrored from a
//! remote provider; together with the time conversion helpers used by the
//! scheduling surface.

use vstd::prelude::*;
use vstd::string::StringExecFns;
use vstd::string::StrSliceExecFns;

verus! {

/// One scheduled block of time on a given day.
#[derive(Debug, Clone)]
pub struct TimeBlock {
    pub id: Option<i64>,
    pub date: String,
    /// Minutes from midnight, 0 to 1439.
    pub start_minutes: i32,
    /// Length of the block in minutes.
    pub duration_minutes: i32,
    pub title: String,
    pub notes_file: Option<String>,
    pub color: String,
    pub tags: Vec<String>,
    pub created_at: Option<String>,
    pub updated_at: Option<String>,
}

/// A file attached to a time block.
#[derive(Debug, Clone)]
pub struct Attachment {
    pub id: Option<i64>,
    pub time_block_id: i64,
    pub file_path: String,
    pub file_name: String,
    pub file_type: String,
    pub file_size: Option<i64>,
    pub created_at: Option<String>,
}

/// One prioritized item for a given day.
#[derive(Debug, Clone)]
pub struct Priority {
    pub id: Option<i64>,
    pub date: String,
    pub content: String,
    pub completed: bool,
    pub priority_order: i32,
    pub created_at: Option<String>,
}

/// Free-form notes for a given day.
#[derive(Debug, Clone)]
pub struct BrainDump {
    pub id: Option<i64>,
    pub date: String,
    pub content: String,
    pub created_at: Option<String>,
    pub updated_at: Option<String>,
}

/// A selectable scheduling granularity with its display label.
#[derive(Debug, Clone)]
pub struct TimeInterval {
    pub minutes: i32,
    pub label: String,
}

/// One linked remote calendar account.
#[derive(Debug, Clone)]
pub struct CalendarConnection {
    /// Assigned by the store; absent until persisted.
    pub id: Option<i64>,
    pub provider: String,
    pub account_name: String,
    pub access_token: String,
    pub refresh_token: Option<String>,
    /// Identifiers of the remote calendars enabled for sync.
    pub calendar_list: Vec<String>,
    /// Timestamp of the last successful sync, if any.
    pub last_sync: Option<String>,
    pub enabled: bool,
    pub created_at: Option<String>,
}

/// One remote calendar entry mirrored locally.
///
/// The pair (`connection_id`, `external_id`) is the reconciliation key:
/// the store keeps at most one event per pair.
#[derive(Debug, Clone)]
pub struct CalendarEvent {
    pub id: Option<i64>,
    pub connection_id: i64,
    pub external_id: String,
    pub calendar_id: String,
    pub title: String,
    pub start_time: String,
    pub end_time: String,
    pub description: Option<String>,
    pub location: Option<String>,
    pub is_all_day: bool,
    pub attendees: Vec<String>,
    pub last_updated: String,
}

/// Mathematical view of a `CalendarConnection`: every text field as a
/// character sequence.
#[verifier::ext_equal]
pub ghost struct ConnectionView {
    pub id: Option<i64>,
    pub provider: Seq<char>,
    pub account_name: Seq<char>,
    pub access_token: Seq<char>,
    pub refresh_token: Option<Seq<char>>,
    pub calendar_list: Seq<Seq<char>>,
    pub last_sync: Option<Seq<char>>,
    pub enabled: bool,
    pub created_at: Option<Seq<char>>,
}

impl View for CalendarConnection {
    type V = ConnectionView;

    open spec fn view(&self) -> ConnectionView {
        ConnectionView {
            id: self.id,
            provider: self.provider@,
            account_name: self.account_name@,
            access_token: self.access_token@,
            refresh_token: match self.refresh_token {
                Some(ref t) => Some(t@),
                None => None,
            },
            calendar_list: self.calendar_list.deep_view(),
            last_sync: match self.last_sync {
                Some(ref t) => Some(t@),
                None => None,
            },
            enabled: self.enabled,
            created_at: match self.created_at {
                Some(ref t) => Some(t@),
                None => None,
            },
        }
    }
}

/// Mathematical view of a `CalendarEvent`: every text field as a character
/// sequence.
#[verifier::ext_equal]
pub ghost struct EventView {
    pub id: Option<i64>,
    pub connection_id: i64,
    pub external_id: Seq<char>,
    pub calendar_id: Seq<char>,
    pub title: Seq<char>,
    pub start_time: Seq<char>,
    pub end_time: Seq<char>,
    pub description: Option<Seq<char>>,
    pub location: Option<Seq<char>>,
    pub is_all_day: bool,
    pub attendees: Seq<Seq<char>>,
    pub last_updated: Seq<char>,
}

impl View for CalendarEvent {
    type V = EventView;

    open spec fn view(&self) -> EventView {
        EventView {
            id: self.id,
            connection_id: self.connection_id,
            external_id: self.external_id@,
            calendar_id: self.calendar_id@,
            title: self.title@,
            start_time: self.start_time@,
            end_time: self.end_time@,
            description: match self.description {
                Some(ref t) => Some(t@),
                None => None,
            },
            location: match self.location {
                Some(ref t) => Some(t@),
                None => None,
            },
            is_all_day: self.is_all_day,
            attendees: self.attendees.deep_view(),
            last_updated: self.last_updated@,
        }
    }
}

/// An option of text cloned field by field, so the copy is known faithful.
pub(crate) fn clone_opt_string(o: &Option<String>) -> (r: Option<String>)
    ensures
        match o {
            Some(s) => r matches Some(t) && t@ == s@,
            None => r is None,
        },
{
    match o {
        Some(s) => Some(s.clone()),
        None => None,
    }
}

/// A list of text values cloned element by element.
pub(crate) fn clone_string_vec(v: &Vec<String>) -> (r: Vec<String>)
    ensures
        r.deep_view() == v.deep_view(),
{
    let mut r: Vec<String> = Vec::new();
    let mut i: usize = 0;
    while i < v.len()
        invariant
            i <= v@.len(),
            r@.len() == i,
            forall|j: int| 0 <= j < i ==> #[trigger] r@[j]@ == v@[j]@,
        decreases v@.len() - i,
    {
        r.push(v[i].clone());
        i += 1;
    }
    proof {
        assert(r.deep_view() =~= v.deep_view());
    }
    r
}

/// A field-true copy of an event; the derived clone tells the verifier
/// nothing, so the copy is spelled out.
pub fn clone_event(e: &CalendarEvent) -> (r: CalendarEvent)
    ensures
        r@ == e@,
{
    let r = CalendarEvent {
        id: e.id,
        connection_id: e.connection_id,
        external_id: e.external_id.clone(),
        calendar_id: e.calendar_id.clone(),
        title: e.title.clone(),
        start_time: e.start_time.clone(),
        end_time: e.end_time.clone(),
        description: clone_opt_string(&e.description),
        location: clone_opt_string(&e.location),
        is_all_day: e.is_all_day,
        attendees: clone_string_vec(&e.attendees),
        last_updated: e.last_updated.clone(),
    };
    proof {
        assert(r@ =~= e@);
    }
    r
}

/// A field-true copy of a connection.
pub fn clone_connection(c: &CalendarConnection) -> (r: CalendarConnection)
    ensures
        r@ == c@,
{
    let r = CalendarConnection {
        id: c.id,
        provider: c.provider.clone(),
        account_name: c.account_name.clone(),
        access_token: c.access_token.clone(),
        refresh_token: clone_opt_string(&c.refresh_token),
        calendar_list: clone_string_vec(&c.calendar_list),
        last_sync: clone_opt_string(&c.last_sync),
        enabled: c.enabled,
        created_at: clone_opt_string(&c.created_at),
    };
    proof {
        assert(r@ =~= c@);
    }
    r
}

/// The decimal digit character for `d`, which must lie in 0..10.
pub open spec fn digit_char(d: int) -> char {
    if d == 0 {
        '0'
    } else if d == 1 {
        '1'
    } else if d == 2 {
        '2'
    } else if d == 3 {
        '3'
    } else if d == 4 {
        '4'
    } else if d == 5 {
        '5'
    } else if d == 6 {
        '6'
    } else if d == 7 {
        '7'
    } else if d == 8 {
        '8'
    } else {
        '9'
    }
}

/// Decimal rendering of a non-negative integer, without padding.
pub open spec fn dec_digits(n: int) -> Seq<char>
    decreases n,
{
    if n < 10 {
        seq![digit_char(n)]
    } else {
        dec_digits(n / 10).push(digit_char(n % 10))
    }
}

/// Decimal rendering padded with a leading zero to at least two digits.
pub open spec fn two_digit(n: int) -> Seq<char> {
    if n < 10 {
        seq!['0', digit_char(n)]
    } else {
        dec_digits(n)
    }
}

/// Clock rendering `HH:MM` of a count of minutes from midnight.
pub open spec fn clock_string(minutes: int) -> Seq<char> {
    two_digit(minutes / 60) + seq![':'] + two_digit(minutes % 60)
}

/// The single-character string for one decimal digit.
fn digit_str(d: u32) -> (r: &'static str)
    requires
        d < 10,
    ensures
        r@ == seq![digit_char(d as int)],
{
    proof {
        reveal_strlit("0");
        reveal_strlit("1");
        reveal_strlit("2");
        reveal_strlit("3");
        reveal_strlit("4");
        reveal_strlit("5");
        reveal_strlit("6");
        reveal_strlit("7");
        reveal_strlit("8");
        reveal_strlit("9");
    }
    let r: &'static str = if d == 0 {
        "0"
    } else if d == 1 {
        "1"
    } else if d == 2 {
        "2"
    } else if d == 3 {
        "3"
    } else if d == 4 {
        "4"
    } else if d == 5 {
        "5"
    } else if d == 6 {
        "6"
    } else if d == 7 {
        "7"
    } else if d == 8 {
        "8"
    } else {
        "9"
    };
    proof {
        assert(r@ =~= seq![digit_char(d as int)]);
    }
    r
}

/// Decimal rendering of `n`, matching `dec_digits`.
pub fn u32_dec_str(n: u32) -> (r: String)
    ensures
        r@ == dec_digits(n as int),
    decreases n,
{
    if n < 10 {
        String::from_str(digit_str(n))
    } else {
        let mut s = u32_dec_str(n / 10);
        s.append(digit_str(n % 10));
        proof {
            assert(s@ =~= dec_digits(n as int / 10).push(digit_char(n as int % 10)));
        }
        s
    }
}

/// Decimal rendering of `n`, matching `dec_digits`.
pub fn u64_dec_str(n: u64) -> (r: String)
    ensures
        r@ == dec_digits(n as int),
    decreases n,
{
    if n < 10 {
        String::from_str(digit_str(n as u32))
    } else {
        let mut s = u64_dec_str(n / 10);
        s.append(digit_str((n % 10) as u32));
        proof {
            assert(s@ =~= dec_digits(n as int / 10).push(digit_char(n as int % 10)));
        }
        s
    }
}

/// Two-digit zero-padded rendering of `n`, matching `two_digit`.
pub fn two_digit_str(n: u32) -> (r: String)
    ensures
        r@ == two_digit(n as int),
{
    if n < 10 {
        let mut s = String::from_str("0");
        s.append(digit_str(n));
        proof {
            reveal_strlit("0");
            assert(s@ =~= two_digit(n as int));
        }
        s
    } else {
        u32_dec_str(n)
    }
}

/// Clock rendering `HH:MM` of `minutes`, matching `clock_string`.
fn clock_str(minutes: u32) -> (r: String)
    ensures
        r@ == clock_string(minutes as int),
{
    let mut s = two_digit_str(minutes / 60);
    s.append(":");
    let mins = two_digit_str(minutes % 60);
    s.append(mins.as_str());
    proof {
        reveal_strlit(":");
        assert(s@ =~= clock_string(minutes as int));
    }
    s
}

impl TimeBlock {
    /// The block's start instant rendered as `HH:MM`.
    pub fn start_time_formatted(&self) -> (r: String)
        requires
            0 <= self.start_minutes < 1440,
        ensures
            r@ == clock_string(self.start_minutes as int),
    {
        clock_str(self.start_minutes as u32)
    }

    /// The block's end instant (start plus duration) rendered as `HH:MM`.
    pub fn end_time_formatted(&self) -> (r: String)
        requires
            0 <= self.start_minutes,
            0 <= self.duration_minutes,
            self.start_minutes + self.duration_minutes <= i32::MAX,
        ensures
            r@ == clock_string(self.start_minutes + self.duration_minutes),
    {
        let end_minutes: i32 = self.start_minutes + self.duration_minutes;
        clock_str(end_minutes as u32)
    }

    /// The block's duration rendered as `Hh Mm` above an hour and `Mm` below.
    pub fn duration_formatted(&self) -> (r: String)
        requires
            0 <= self.duration_minutes,
        ensures
            r@ == duration_label(self.duration_minutes as int),
    {
        let d: u32 = self.duration_minutes as u32;
        if d >= 60 {
            let hours: u32 = d / 60;
            let remaining: u32 = d % 60;
            if remaining == 0 {
                let mut s = u32_dec_str(hours);
                s.append("h");
                proof {
                    reveal_strlit("h");
                    assert(s@ =~= duration_label(self.duration_minutes as int));
                }
                s
            } else {
                let mut s = u32_dec_str(hours);
                s.append("h ");
                let m = u32_dec_str(remaining);
                s.append(m.as_str());
                s.append("m");
                proof {
                    reveal_strlit("h ");
                    reveal_strlit("m");
                    assert(s@ =~= duration_label(self.duration_minutes as int));
                }
                s
            }
        } else {
            let mut s = u32_dec_str(d);
            s.append("m");
            proof {
                reveal_strlit("m");
                assert(s@ =~= duration_label(self.duration_minutes as int));
            }
            s
        }
    }
}

/// Duration rendering: `Hh` on whole hours, `Hh Mm` otherwise, `Mm` under an
/// hour.
pub open spec fn duration_label(d: int) -> Seq<char> {
    if d >= 60 {
        if d % 60 == 0 {
            dec_digits(d / 60).push('h')
        } else {
            dec_digits(d / 60) + seq!['h', ' '] + dec_digits(d % 60).push('m')
        }
    } else {
        dec_digits(d).push('m')
    }
}

/// Clock rendering `HH:MM` of a count of minutes from midnight.
pub fn minutes_to_time_string(minutes: i32) -> (r: String)
    requires
        0 <= minutes,
    ensures
        r@ == clock_string(minutes as int),
{
    clock_str(minutes as u32)
}

/// True when `c` is a decimal digit.
pub open spec fn is_digit(c: char) -> bool {
    48 <= c as int <= 57
}

/// Numeric value of a decimal digit character.
pub open spec fn digit_val(c: char) -> int {
    c as int - 48
}

/// True when every character of `s` is a decimal digit.
pub open spec fn all_digits(s: Seq<char>) -> bool {
    forall|j: int| 0 <= j < s.len() ==> is_digit(s[j])
}

/// Numeric value of a digit string, most significant digit first.
pub open spec fn digits_val(s: Seq<char>) -> int
    decreases s.len(),
{
    if s.len() == 0 {
        0
    } else {
        digits_val(s.drop_last()) * 10 + digit_val(s.last())
    }
}

/// Signed decimal integer grammar: an optional sign, then at least one
/// digit, with the value within the range of `i32`.
pub open spec fn parse_i32_spec(s: Seq<char>) -> Option<int> {
    let body = if s.len() > 0 && (s[0] == '+' || s[0] == '-') {
        s.drop_first()
    } else {
        s
    };
    let neg = s.len() > 0 && s[0] == '-';
    if body.len() > 0 && all_digits(body) {
        let v = if neg {
            -digits_val(body)
        } else {
            digits_val(body)
        };
        if i32::MIN <= v <= i32::MAX {
            Some(v)
        } else {
            None
        }
    } else {
        None
    }
}

/// True when `k` indexes the one and only colon of `s`.
pub open spec fn is_the_colon(s: Seq<char>, k: int) -> bool {
    &&& 0 <= k < s.len()
    &&& s[k] == ':'
    &&& forall|j: int| 0 <= j < s.len() && j != k ==> s[j] != ':'
}

/// True when `s` holds exactly one colon.
pub open spec fn has_one_colon(s: Seq<char>) -> bool {
    exists|k: int| is_the_colon(s, k)
}

/// The outcome `time_string_to_minutes` owes on input `s`: minutes from
/// midnight on a well-formed `HH:MM` clock string, and otherwise the
/// diagnostic naming the first rule broken.
pub open spec fn time_parse(s: Seq<char>) -> Result<int, Seq<char>> {
    if !has_one_colon(s) {
        Err("Invalid time format"@)
    } else {
        let k = choose|k: int| is_the_colon(s, k);
        let hours = parse_i32_spec(s.subrange(0, k));
        let minutes = parse_i32_spec(s.subrange(k + 1, s.len() as int));
        if hours is None {
            Err("Invalid hour"@)
        } else if minutes is None {
            Err("Invalid minute"@)
        } else if hours->0 < 0 || hours->0 > 23 || minutes->0 < 0 || minutes->0 > 59 {
            Err("Time out of range"@)
        } else {
            Ok(hours->0 * 60 + minutes->0)
        }
    }
}

proof fn lemma_digits_val_nonneg(s: Seq<char>)
    requires
        all_digits(s),
    ensures
        digits_val(s) >= 0,
    decreases s.len(),
{
    if s.len() > 0 {
        assert(all_digits(s.drop_last()));
        lemma_digits_val_nonneg(s.drop_last());
    }
}

/// Cap used while accumulating a parsed magnitude; above every `i32`
/// magnitude, so clamping at it loses nothing the range test needs.
const PARSE_CAP: i64 = 4294967296;

/// Signed decimal parse of a whole string, `None` exactly where the
/// `parse_i32_spec` grammar rejects it.
pub fn parse_i32_str(s: &str) -> (r: Option<i32>)
    ensures
        match r {
            Some(v) => parse_i32_spec(s@) == Some(v as int),
            None => parse_i32_spec(s@) is None,
        },
{
    let n = s.unicode_len();
    if n == 0 {
        return None;
    }
    let first = s.get_char(0);
    let negative = first == '-';
    let start: usize = if first == '+' || first == '-' {
        1
    } else {
        0
    };
    if n == start {
        // A bare sign has no digits.
        return None;
    }
    let ghost body = if start == 1 {
        s@.drop_first()
    } else {
        s@
    };
    proof {
        assert(body =~= s@.subrange(start as int, n as int));
    }
    let mut acc: i64 = 0;
    let mut j: usize = start;
    while j < n
        invariant
            start <= j <= n,
            start < n,
            n == s@.len(),
            start == 0 || start == 1,
            negative == (s@[0] == '-'),
            (start == 1) == (s@[0] == '+' || s@[0] == '-'),
            body == s@.subrange(start as int, n as int),
            all_digits(s@.subrange(start as int, j as int)),
            0 <= acc <= PARSE_CAP,
            digits_val(s@.subrange(start as int, j as int)) <= PARSE_CAP ==> acc == digits_val(
                s@.subrange(start as int, j as int),
            ),
            digits_val(s@.subrange(start as int, j as int)) > PARSE_CAP ==> acc == PARSE_CAP,
        decreases n - j,
    {
        let c = s.get_char(j);
        let u = c as u32;
        if u < 48 || u > 57 {
            proof {
                let bj = j as int - start as int;
                assert(c as int == u as int);
                assert(body[bj] == s@[j as int]);
                assert(!is_digit(body[bj]));
                assert(!all_digits(body));
            }
            return None;
        }
        let d: i64 = (u - 48) as i64;
        let ghost pref = s@.subrange(start as int, j as int);
        let ghost pref2 = s@.subrange(start as int, j as int + 1);
        proof {
            assert(pref2.drop_last() =~= pref);
            assert(pref2.last() == s@[j as int]);
            lemma_digits_val_nonneg(pref);
        }
        let t: i64 = acc * 10 + d;
        acc = if t > PARSE_CAP {
            PARSE_CAP
        } else {
            t
        };
        proof {
            assert(all_digits(pref2));
            assert(digits_val(pref2) == digits_val(pref) * 10 + digit_val(s@[j as int]));
        }
        j += 1;
    }
    proof {
        assert(s@.subrange(start as int, n as int) =~= body);
        lemma_digits_val_nonneg(body);
    }
    if negative {
        if acc <= 2147483648 {
            let v: i64 = -acc;
            Some(v as i32)
        } else {
            None
        }
    } else {
        if acc <= 2147483647 {
            Some(acc as i32)
        } else {
            None
        }
    }
}

/// Minutes from midnight of a `HH:MM` clock string; rejects anything but a
/// single-colon string with in-range hour and minute numbers.
pub fn time_string_to_minutes(time_str: &str) -> (r: Result<i32, String>)
    ensures
        match r {
            Ok(v) => time_parse(time_str@) == Result::<int, Seq<char>>::Ok(v as int),
            Err(e) => time_parse(time_str@) == Result::<int, Seq<char>>::Err(e@),
        },
{
    let n = time_str.unicode_len();
    let mut colon: Option<usize> = None;
    let mut i: usize = 0;
    while i < n
        invariant
            0 <= i <= n,
            n == time_str@.len(),
            match colon {
                None => forall|j: int| 0 <= j < i ==> time_str@[j] != ':',
                Some(k) => 0 <= k < i && time_str@[k as int] == ':' && forall|j: int|
                    0 <= j < i && j != k ==> time_str@[j] != ':',
            },
        decreases n - i,
    {
        let c = time_str.get_char(i);
        if c == ':' {
            match colon {
                None => {
                    colon = Some(i);
                },
                Some(k) => {
                    // A second colon: no single split point exists.
                    proof {
                        assert(forall|k2: int| !is_the_colon(time_str@, k2)) by {
                            assert forall|k2: int| !is_the_colon(time_str@, k2) by {
                                if is_the_colon(time_str@, k2) {
                                    if k2 != k as int {
                                        assert(time_str@[k as int] != ':');
                                    } else {
                                        assert(time_str@[i as int] != ':');
                                    }
                                }
                            }
                        }
                    }
                    return Err(String::from_str("Invalid time format"));
                },
            }
        }
        i += 1;
    }
    let k = match colon {
        None => {
            proof {
                assert(forall|k2: int| !is_the_colon(time_str@, k2));
            }
            return Err(String::from_str("Invalid time format"));
        },
        Some(k) => k,
    };
    proof {
        assert(is_the_colon(time_str@, k as int));
        let kk = choose|kk: int| is_the_colon(time_str@, kk);
        if kk != k as int {
            assert(time_str@[k as int] != ':');
        }
    }
    let hours_part = time_str.substring_char(0, k);
    let minutes_part = time_str.substring_char(k + 1, n);
    proof {
        assert(hours_part@ =~= time_str@.subrange(0, k as int));
        assert(minutes_part@ =~= time_str@.subrange(k as int + 1, n as int));
    }
    let hours = match parse_i32_str(hours_part) {
        Some(h) => h,
        None => {
            return Err(String::from_str("Invalid hour"));
        },
    };
    let minutes = match parse_i32_str(minutes_part) {
        Some(m) => m,
        None => {
            return Err(String::from_str("Invalid minute"));
        },
    };
    if hours < 0 || hours > 23 || minutes < 0 || minutes > 59 {
        return Err(String::from_str("Time out of range"));
    }
    Ok(hours * 60 + minutes)
}

/// The display label of a scheduling interval: whole hours as
/// `N hour` or `N hours`, mixed as `Hh Mm`, and under an hour as `M min`.
pub open spec fn interval_label(minutes: int) -> Seq<char> {
    if minutes >= 60 {
        if minutes % 60 == 0 {
            if minutes / 60 > 1 {
                dec_digits(minutes / 60) + " hours"@
            } else {
                dec_digits(minutes / 60) + " hour"@
            }
        } else {
            dec_digits(minutes / 60) + seq!['h', ' '] + dec_digits(minutes % 60).push('m')
        }
    } else {
        dec_digits(minutes) + " min"@
    }
}

impl TimeInterval {
    /// The interval for a minute count, labeled exactly `interval_label`.
    pub fn from_minutes(minutes: i32) -> (r: TimeInterval)
        requires
            0 <= minutes,
        ensures
            r.minutes == minutes,
            r.label@ == interval_label(minutes as int),
    {
        let m: u32 = minutes as u32;
        let label: String = if m >= 60 {
            let hours = m / 60;
            let remaining = m % 60;
            if remaining == 0 {
                let mut s = u32_dec_str(hours);
                if hours > 1 {
                    s.append(" hours");
                } else {
                    s.append(" hour");
                }
                s
            } else {
                let mut s = u32_dec_str(hours);
                s.append("h ");
                let rem = u32_dec_str(remaining);
                s.append(rem.as_str());
                s.append("m");
                s
            }
        } else {
            let mut s = u32_dec_str(m);
            s.append(" min");
            s
        };
        proof {
            reveal_strlit("h ");
            reveal_strlit("m");
            assert(label@ =~= interval_label(minutes as int));
        }
        TimeInterval { minutes, label }
    }
}

/// The selectable intervals for a list of minute counts, in order.
pub fn available_intervals(minutes_list: &Vec<i32>) -> (r: Vec<TimeInterval>)
    requires
        forall|i: int| 0 <= i < minutes_list@.len() ==> 0 <= #[trigger] minutes_list@[i],
    ensures
        r@.len() == minutes_list@.len(),
        forall|i: int|
            0 <= i < r@.len() ==> (#[trigger] r@[i]).minutes == minutes_list@[i]
                && r@[i].label@ == interval_label(minutes_list@[i] as int),
{
    let mut r: Vec<TimeInterval> = Vec::new();
    let mut i: usize = 0;
    while i < minutes_list.len()
        invariant
            0 <= i <= minutes_list@.len(),
            r@.len() == i,
            forall|j: int| 0 <= j < minutes_list@.len() ==> 0 <= #[trigger] minutes_list@[j],
            forall|j: int|
                0 <= j < i ==> (#[trigger] r@[j]).minutes == minutes_list@[j] && r@[j].label@
                    == interval_label(minutes_list@[j] as int),
        decreases minutes_list@.len() - i,
    {
        r.push(TimeInterval::from_minutes(minutes_list[i]));
        i += 1;
    }
    r
}

} // verus!
