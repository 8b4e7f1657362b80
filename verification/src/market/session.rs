//! Trading-session classification for the underlying equity.
//!
//! Basis and volatility statistics are kept per session, and new risk is only
//! added in sessions that are explicitly enabled.

use chrono::{Datelike, TimeZone, Timelike};
use vstd::prelude::*;

use crate::config;
use crate::text;

verus! {

#[derive(Debug, Clone, Copy, PartialEq, Eq, Hash, Structural)]
pub enum SessionKind {
    Regular,
    Pre,
    Post,
    Overnight,
    Weekend,
    /// Holiday or explicit event blackout.
    Blackout,
}

impl SessionKind {
    pub open spec fn spec_label(self) -> Seq<char> {
        match self {
            SessionKind::Regular => "regular"@,
            SessionKind::Pre => "pre"@,
            SessionKind::Post => "post"@,
            SessionKind::Overnight => "overnight"@,
            SessionKind::Weekend => "weekend"@,
            SessionKind::Blackout => "blackout"@,
        }
    }

    pub fn label(self) -> (r: &'static str)
        ensures
            r@ == self.spec_label(),
    {
        match self {
            SessionKind::Regular => "regular",
            SessionKind::Pre => "pre",
            SessionKind::Post => "post",
            SessionKind::Overnight => "overnight",
            SessionKind::Weekend => "weekend",
            SessionKind::Blackout => "blackout",
        }
    }
}

/// The session kind with this label, in any ASCII case.
pub open spec fn kind_of(s: Seq<char>) -> Option<SessionKind> {
    let l = text::ascii_lower(s);
    if l == "regular"@ {
        Some(SessionKind::Regular)
    } else if l == "pre"@ {
        Some(SessionKind::Pre)
    } else if l == "post"@ {
        Some(SessionKind::Post)
    } else if l == "overnight"@ {
        Some(SessionKind::Overnight)
    } else if l == "weekend"@ {
        Some(SessionKind::Weekend)
    } else if l == "blackout"@ {
        Some(SessionKind::Blackout)
    } else {
        None
    }
}

/// Reads a session kind from its label.
pub fn parse_kind(s: &str) -> (r: Option<SessionKind>)
    ensures
        r == kind_of(s@),
{
    let l = text::to_ascii_lower(s);
    let l = l.as_str();
    if text::same(l, "regular") {
        Some(SessionKind::Regular)
    } else if text::same(l, "pre") {
        Some(SessionKind::Pre)
    } else if text::same(l, "post") {
        Some(SessionKind::Post)
    } else if text::same(l, "overnight") {
        Some(SessionKind::Overnight)
    } else if text::same(l, "weekend") {
        Some(SessionKind::Weekend)
    } else if text::same(l, "blackout") {
        Some(SessionKind::Blackout)
    } else {
        None
    }
}

/// A point in time: seconds since the Unix epoch and the nanoseconds of the
/// last one.
#[derive(Debug, Clone, Copy, PartialEq, Eq, Structural)]
pub struct UtcTime {
    pub secs: i64,
    pub nanos: u32,
}

/// The first and the last second that every time zone can express.
pub const MIN_UTC_SECS: i64 = -8_334_601_142_400;

pub const MAX_UTC_SECS: i64 = 8_210_266_790_399;

impl UtcTime {
    /// A time that every time zone can express, outside a leap second.
    pub open spec fn wf(self) -> bool {
        MIN_UTC_SECS <= self.secs <= MAX_UTC_SECS && self.nanos < 1_000_000_000
    }

    /// Not earlier than `other`.
    pub open spec fn not_before(self, other: UtcTime) -> bool {
        self.secs > other.secs || (self.secs == other.secs && self.nanos >= other.nanos)
    }

    pub fn is_valid(&self) -> (r: bool)
        ensures
            r == self.wf(),
    {
        MIN_UTC_SECS <= self.secs && self.secs <= MAX_UTC_SECS && self.nanos < 1_000_000_000
    }

    fn at_or_after(&self, other: UtcTime) -> (r: bool)
        ensures
            r == self.not_before(other),
    {
        self.secs > other.secs || (self.secs == other.secs && self.nanos >= other.nanos)
    }
}

/// A calendar day.
#[derive(Debug, Clone, Copy, PartialEq, Eq, Structural)]
pub struct CivilDate {
    pub year: i32,
    pub month: u32,
    pub day: u32,
}

/// A local date and time of day. Weekdays count from Monday, which is 0.
#[derive(Debug, Clone, Copy, PartialEq, Eq, Structural)]
pub struct LocalTime {
    pub date: CivilDate,
    pub weekday: u32,
    /// Seconds since local midnight.
    pub second: u32,
}

/// Whether the time-zone database has a zone of this name.
pub uninterp spec fn zone_exists(name: Seq<char>) -> bool;

/// The local time of a point in time in the zone of this name.
pub uninterp spec fn local_time_in(zone: Seq<char>, secs: i64, nanos: u32) -> LocalTime;

/// The day that a `YYYY-MM-DD` text stands for, if it does.
pub uninterp spec fn date_of(s: Seq<char>) -> Option<CivilDate>;

/// The point in time that an RFC 3339 text stands for, if it does.
pub uninterp spec fn rfc3339_of(s: Seq<char>) -> Option<UtcTime>;

/// `str::parse::<chrono_tz::Tz>`: whether the compiled-in time-zone database
/// knows the name.
#[verifier::external_body]
fn is_zone(name: &str) -> (r: bool)
    ensures
        r == zone_exists(name@),
{
    name.parse::<chrono_tz::Tz>().is_ok()
}

/// `chrono::TimeZone::from_utc_datetime` for a zone of `chrono_tz`: the local
/// date, weekday and time of day, a function of the zone's name and the point in
/// time. The bounds keep the local time inside chrono's range.
#[verifier::external_body]
fn local_time(zone: &str, at: UtcTime) -> (r: LocalTime)
    requires
        zone_exists(zone@),
        at.wf(),
    ensures
        r == local_time_in(zone@, at.secs, at.nanos),
{
    let tz: chrono_tz::Tz = zone.parse().expect("known zone");
    let utc = chrono::DateTime::from_timestamp(at.secs, at.nanos).expect("in range");
    let t = tz.from_utc_datetime(&utc.naive_utc());
    let date = CivilDate { year: t.year(), month: t.month(), day: t.day() };
    let weekday = t.weekday().num_days_from_monday();
    LocalTime { date, weekday, second: t.time().num_seconds_from_midnight() }
}

/// `chrono::NaiveDate::parse_from_str` with `%Y-%m-%d`: the day is a function of
/// the text.
#[verifier::external_body]
fn read_date(s: &str) -> (r: Option<CivilDate>)
    ensures
        r == date_of(s@),
{
    match chrono::NaiveDate::parse_from_str(s, "%Y-%m-%d") {
        Ok(d) => Some(CivilDate { year: d.year(), month: d.month(), day: d.day() }),
        Err(_) => None,
    }
}

/// `chrono::DateTime::parse_from_rfc3339`: the point in time is a function of
/// the text.
#[verifier::external_body]
fn read_rfc3339(s: &str) -> (r: Option<UtcTime>)
    ensures
        r == rfc3339_of(s@),
{
    match chrono::DateTime::parse_from_rfc3339(s) {
        Ok(t) => Some(UtcTime { secs: t.timestamp(), nanos: t.timestamp_subsec_nanos() }),
        Err(_) => None,
    }
}

/// What is wrong with a session configuration.
#[derive(Debug, Clone, PartialEq)]
pub enum SessionError {
    BadTimezone(String),
    UnknownSession(String),
    BadHoliday(String),
    BadEventStart(String),
    BadEventEnd(String),
}

/// A session configuration error as plain values.
pub ghost enum SessionErrorView {
    BadTimezone(Seq<char>),
    UnknownSession(Seq<char>),
    BadHoliday(Seq<char>),
    BadEventStart(Seq<char>),
    BadEventEnd(Seq<char>),
}

impl View for SessionError {
    type V = SessionErrorView;

    open spec fn view(&self) -> SessionErrorView {
        match *self {
            SessionError::BadTimezone(s) => SessionErrorView::BadTimezone(s@),
            SessionError::UnknownSession(s) => SessionErrorView::UnknownSession(s@),
            SessionError::BadHoliday(s) => SessionErrorView::BadHoliday(s@),
            SessionError::BadEventStart(s) => SessionErrorView::BadEventStart(s@),
            SessionError::BadEventEnd(s) => SessionErrorView::BadEventEnd(s@),
        }
    }
}

pub struct SessionCalendar {
    zone: String,
    tradable: Vec<SessionKind>,
    holidays: Vec<CivilDate>,
    event_windows: Vec<(UtcTime, UtcTime)>,
    force: Option<SessionKind>,
}

/// A calendar as plain values.
pub ghost struct CalendarView {
    pub zone: Seq<char>,
    pub tradable: Seq<SessionKind>,
    pub holidays: Seq<CivilDate>,
    pub event_windows: Seq<(UtcTime, UtcTime)>,
    pub force: Option<SessionKind>,
}

impl View for SessionCalendar {
    type V = CalendarView;

    closed spec fn view(&self) -> CalendarView {
        CalendarView {
            zone: self.zone@,
            tradable: self.tradable@,
            holidays: self.holidays@,
            event_windows: self.event_windows@,
            force: self.force,
        }
    }
}

/// Session kinds of a list of labels, or the first label that names none.
pub open spec fn kinds_of(labels: Seq<String>) -> Result<Seq<SessionKind>, Seq<char>>
    decreases labels.len(),
{
    if labels.len() == 0 {
        Ok(seq![])
    } else {
        match kinds_of(labels.drop_last()) {
            Err(e) => Err(e),
            Ok(head) => match kind_of(labels.last()@) {
                Some(k) => Ok(head.push(k)),
                None => Err(labels.last()@),
            },
        }
    }
}

/// Days of a list of texts, or the first text that is no day.
pub open spec fn dates_of(texts: Seq<String>) -> Result<Seq<CivilDate>, Seq<char>>
    decreases texts.len(),
{
    if texts.len() == 0 {
        Ok(seq![])
    } else {
        match dates_of(texts.drop_last()) {
            Err(e) => Err(e),
            Ok(head) => match date_of(texts.last()@) {
                Some(d) => Ok(head.push(d)),
                None => Err(texts.last()@),
            },
        }
    }
}

/// Event windows of a list of start and end texts, or the first error.
pub open spec fn windows_of(pairs: Seq<[String; 2]>) -> Result<
    Seq<(UtcTime, UtcTime)>,
    SessionErrorView,
>
    decreases pairs.len(),
{
    if pairs.len() == 0 {
        Ok(seq![])
    } else {
        match windows_of(pairs.drop_last()) {
            Err(e) => Err(e),
            Ok(head) => {
                let start = pairs.last()@[0]@;
                let end = pairs.last()@[1]@;
                match (rfc3339_of(start), rfc3339_of(end)) {
                    (None, _) => Err(SessionErrorView::BadEventStart(start)),
                    (_, None) => Err(SessionErrorView::BadEventEnd(end)),
                    (Some(a), Some(b)) => Ok(head.push((a, b))),
                }
            },
        }
    }
}

/// The calendar of a configuration, or its first error.
pub open spec fn calendar_of(cfg: config::Session) -> Result<CalendarView, SessionErrorView> {
    if !zone_exists(cfg.timezone@) {
        Err(SessionErrorView::BadTimezone(cfg.timezone@))
    } else {
        match kinds_of(cfg.tradable@) {
            Err(e) => Err(SessionErrorView::UnknownSession(e)),
            Ok(tradable) => {
                if cfg.force_session@.len() > 0 && kind_of(cfg.force_session@) is None {
                    Err(SessionErrorView::UnknownSession(cfg.force_session@))
                } else {
                    match (dates_of(cfg.holidays@), windows_of(cfg.event_windows@)) {
                        (Err(e), _) => Err(SessionErrorView::BadHoliday(e)),
                        (_, Err(e)) => Err(e),
                        (Ok(holidays), Ok(event_windows)) => Ok(
                            CalendarView {
                                zone: cfg.timezone@,
                                tradable,
                                holidays,
                                event_windows,
                                force: if cfg.force_session@.len() > 0 {
                                    kind_of(cfg.force_session@)
                                } else {
                                    None
                                },
                            },
                        ),
                    }
                }
            },
        }
    }
}

/// Seconds since midnight of an hour and a minute.
pub open spec fn clock(hour: int, minute: int) -> int {
    hour * 3600 + minute * 60
}

/// Friday 20:00 to Monday 04:00, local time.
pub open spec fn is_weekend(t: LocalTime) -> bool {
    ||| t.weekday == 5 || t.weekday == 6
    ||| t.weekday == 4 && t.second >= clock(20, 0)
    ||| t.weekday == 0 && t.second < clock(4, 0)
}

/// The session by the time of day alone.
pub open spec fn session_of_day(second: int) -> SessionKind {
    if clock(9, 30) <= second < clock(16, 0) {
        SessionKind::Regular
    } else if clock(4, 0) <= second < clock(9, 30) {
        SessionKind::Pre
    } else if clock(16, 0) <= second < clock(20, 0) {
        SessionKind::Post
    } else {
        SessionKind::Overnight
    }
}

impl CalendarView {
    /// The session at a local time: a holiday blacks out the whole local day.
    pub open spec fn at_local(self, t: LocalTime) -> SessionKind {
        if self.holidays.contains(t.date) {
            SessionKind::Blackout
        } else if is_weekend(t) {
            SessionKind::Weekend
        } else {
            session_of_day(t.second as int)
        }
    }

    /// The time lies in an event window, whose end is left out.
    pub open spec fn in_event(self, at: UtcTime) -> bool {
        exists|i: int|
            0 <= i < self.event_windows.len() && at.not_before(
                (#[trigger] self.event_windows[i]).0,
            ) && !at.not_before(self.event_windows[i].1)
    }

    pub open spec fn session_at(self, at: UtcTime) -> SessionKind {
        match self.force {
            Some(k) => k,
            None => if self.in_event(at) {
                SessionKind::Blackout
            } else {
                self.at_local(local_time_in(self.zone, at.secs, at.nanos))
            },
        }
    }
}

impl SessionCalendar {
    /// The zone is one that the database knows.
    #[verifier::type_invariant]
    spec fn zone_known(self) -> bool {
        zone_exists(self.zone@)
    }

    /// Builds the calendar of a configuration; the error is the first one found.
    pub fn from_config(cfg: &config::Session) -> (r: Result<SessionCalendar, SessionError>)
        ensures
            match r {
                Ok(c) => calendar_of(*cfg) == Ok::<_, SessionErrorView>(c@),
                Err(e) => calendar_of(*cfg) == Err::<CalendarView, _>(e@),
            },
    {
        if !is_zone(cfg.timezone.as_str()) {
            return Err(SessionError::BadTimezone(cfg.timezone.clone()));
        }
        let tradable = match Self::read_kinds(&cfg.tradable) {
            Ok(t) => t,
            Err(e) => return Err(SessionError::UnknownSession(e)),
        };
        let mut force: Option<SessionKind> = None;
        if !cfg.force_session.as_str().is_empty() {
            match parse_kind(cfg.force_session.as_str()) {
                Some(k) => {
                    force = Some(k);
                },
                None => return Err(SessionError::UnknownSession(cfg.force_session.clone())),
            }
        }
        let holidays = match Self::read_dates(&cfg.holidays) {
            Ok(h) => h,
            Err(e) => return Err(SessionError::BadHoliday(e)),
        };
        let event_windows = match Self::read_windows(&cfg.event_windows) {
            Ok(w) => w,
            Err(e) => return Err(e),
        };
        Ok(
            SessionCalendar {
                zone: cfg.timezone.clone(),
                tradable,
                holidays,
                event_windows,
                force,
            },
        )
    }

    fn read_kinds(labels: &Vec<String>) -> (r: Result<Vec<SessionKind>, String>)
        ensures
            match r {
                Ok(v) => kinds_of(labels@) == Ok::<_, Seq<char>>(v@),
                Err(e) => kinds_of(labels@) == Err::<Seq<SessionKind>, _>(e@),
            },
    {
        let mut v: Vec<SessionKind> = Vec::new();
        let mut i: usize = 0;
        assert(labels@.take(0) =~= seq![]);
        while i < labels.len()
            invariant
                i <= labels.len(),
                kinds_of(labels@.take(i as int)) == Ok::<_, Seq<char>>(v@),
            decreases labels.len() - i,
        {
            let ghost part = labels@.take(i + 1);
            assert(part.drop_last() =~= labels@.take(i as int));
            match parse_kind(labels[i].as_str()) {
                Some(k) => {
                    v.push(k);
                },
                None => {
                    proof {
                        assert(kinds_of(part) == Err::<Seq<SessionKind>, _>(labels@[i as int]@));
                        lemma_kinds_error(labels@, i + 1);
                    }
                    return Err(labels[i].clone());
                },
            }
            i = i + 1;
        }
        assert(labels@.take(i as int) =~= labels@);
        Ok(v)
    }

    fn read_dates(texts: &Vec<String>) -> (r: Result<Vec<CivilDate>, String>)
        ensures
            match r {
                Ok(v) => dates_of(texts@) == Ok::<_, Seq<char>>(v@),
                Err(e) => dates_of(texts@) == Err::<Seq<CivilDate>, _>(e@),
            },
    {
        let mut v: Vec<CivilDate> = Vec::new();
        let mut i: usize = 0;
        assert(texts@.take(0) =~= seq![]);
        while i < texts.len()
            invariant
                i <= texts.len(),
                dates_of(texts@.take(i as int)) == Ok::<_, Seq<char>>(v@),
            decreases texts.len() - i,
        {
            let ghost part = texts@.take(i + 1);
            assert(part.drop_last() =~= texts@.take(i as int));
            match read_date(texts[i].as_str()) {
                Some(d) => {
                    v.push(d);
                },
                None => {
                    proof {
                        assert(dates_of(part) == Err::<Seq<CivilDate>, _>(texts@[i as int]@));
                        lemma_dates_error(texts@, i + 1);
                    }
                    return Err(texts[i].clone());
                },
            }
            i = i + 1;
        }
        assert(texts@.take(i as int) =~= texts@);
        Ok(v)
    }

    fn read_windows(pairs: &Vec<[String; 2]>) -> (r: Result<
        Vec<(UtcTime, UtcTime)>,
        SessionError,
    >)
        ensures
            match r {
                Ok(v) => windows_of(pairs@) == Ok::<_, SessionErrorView>(v@),
                Err(e) => windows_of(pairs@) == Err::<Seq<(UtcTime, UtcTime)>, _>(e@),
            },
    {
        let mut v: Vec<(UtcTime, UtcTime)> = Vec::new();
        let mut i: usize = 0;
        assert(pairs@.take(0) =~= seq![]);
        while i < pairs.len()
            invariant
                i <= pairs.len(),
                windows_of(pairs@.take(i as int)) == Ok::<_, SessionErrorView>(v@),
            decreases pairs.len() - i,
        {
            let ghost part = pairs@.take(i + 1);
            assert(part.drop_last() =~= pairs@.take(i as int));
            let start = &pairs[i][0];
            let end = &pairs[i][1];
            match (read_rfc3339(start.as_str()), read_rfc3339(end.as_str())) {
                (None, _) => {
                    proof {
                        lemma_windows_error(pairs@, i + 1);
                    }
                    return Err(SessionError::BadEventStart(start.clone()));
                },
                (_, None) => {
                    proof {
                        lemma_windows_error(pairs@, i + 1);
                    }
                    return Err(SessionError::BadEventEnd(end.clone()));
                },
                (Some(a), Some(b)) => {
                    v.push((a, b));
                },
            }
            i = i + 1;
        }
        assert(pairs@.take(i as int) =~= pairs@);
        Ok(v)
    }

    /// The session at a local time, event windows and a forced kind aside.
    pub fn session_at_local(&self, t: LocalTime) -> (r: SessionKind)
        ensures
            r == self@.at_local(t),
    {
        let mut i: usize = 0;
        while i < self.holidays.len()
            invariant
                i <= self.holidays.len(),
                forall|j: int| 0 <= j < i ==> self.holidays@[j] != t.date,
            decreases self.holidays.len() - i,
        {
            if self.holidays[i] == t.date {
                assert(self@.holidays[i as int] == t.date);
                return SessionKind::Blackout;
            }
            i = i + 1;
        }
        let weekend = t.weekday == 5 || t.weekday == 6 || (t.weekday == 4 && t.second >= 72_000)
            || (t.weekday == 0 && t.second < 14_400);
        if weekend {
            SessionKind::Weekend
        } else if t.second >= 34_200 && t.second < 57_600 {
            SessionKind::Regular
        } else if t.second >= 14_400 && t.second < 34_200 {
            SessionKind::Pre
        } else if t.second >= 57_600 && t.second < 72_000 {
            SessionKind::Post
        } else {
            SessionKind::Overnight
        }
    }

    fn is_event(&self, at: UtcTime) -> (r: bool)
        ensures
            r == self@.in_event(at),
    {
        let mut i: usize = 0;
        while i < self.event_windows.len()
            invariant
                i <= self.event_windows.len(),
                forall|j: int|
                    0 <= j < i ==> !(at.not_before((#[trigger] self.event_windows@[j]).0)
                        && !at.not_before(self.event_windows@[j].1)),
            decreases self.event_windows.len() - i,
        {
            let w = self.event_windows[i];
            if at.at_or_after(w.0) && !at.at_or_after(w.1) {
                assert(self@.event_windows[i as int] == w);
                return true;
            }
            i = i + 1;
        }
        false
    }

    /// The session at a point in time.
    pub fn classify(&self, at: UtcTime) -> (r: SessionKind)
        requires
            at.wf(),
        ensures
            r == self@.session_at(at),
    {
        proof {
            use_type_invariant(self);
        }
        if let Some(k) = self.force {
            return k;
        }
        if self.is_event(at) {
            return SessionKind::Blackout;
        }
        let t = local_time(self.zone.as_str(), at);
        self.session_at_local(t)
    }

    /// Whether new risk may be added in this session.
    pub fn is_tradable(&self, k: SessionKind) -> (r: bool)
        ensures
            r == self@.tradable.contains(k),
    {
        let mut i: usize = 0;
        while i < self.tradable.len()
            invariant
                i <= self.tradable.len(),
                forall|j: int| 0 <= j < i ==> self.tradable@[j] != k,
            decreases self.tradable.len() - i,
        {
            if self.tradable[i] == k {
                assert(self@.tradable[i as int] == k);
                return true;
            }
            i = i + 1;
        }
        false
    }
}

proof fn lemma_kinds_error(labels: Seq<String>, n: int)
    requires
        0 <= n <= labels.len(),
        kinds_of(labels.take(n)) is Err,
    ensures
        kinds_of(labels) == kinds_of(labels.take(n)),
    decreases labels.len() - n,
{
    if n == labels.len() {
        assert(labels.take(n) =~= labels);
    } else {
        assert(labels.take(n + 1).drop_last() =~= labels.take(n));
        lemma_kinds_error(labels, n + 1);
    }
}

proof fn lemma_dates_error(texts: Seq<String>, n: int)
    requires
        0 <= n <= texts.len(),
        dates_of(texts.take(n)) is Err,
    ensures
        dates_of(texts) == dates_of(texts.take(n)),
    decreases texts.len() - n,
{
    if n == texts.len() {
        assert(texts.take(n) =~= texts);
    } else {
        assert(texts.take(n + 1).drop_last() =~= texts.take(n));
        lemma_dates_error(texts, n + 1);
    }
}

proof fn lemma_windows_error(pairs: Seq<[String; 2]>, n: int)
    requires
        0 <= n <= pairs.len(),
        windows_of(pairs.take(n)) is Err,
    ensures
        windows_of(pairs) == windows_of(pairs.take(n)),
    decreases pairs.len() - n,
{
    if n == pairs.len() {
        assert(pairs.take(n) =~= pairs);
    } else {
        assert(pairs.take(n + 1).drop_last() =~= pairs.take(n));
        lemma_windows_error(pairs, n + 1);
    }
}

/// Every session label is read back as its kind.
pub proof fn labels_read_back(k: SessionKind)
    ensures
        kind_of(k.spec_label()) == Some(k),
{
    reveal_strlit("regular");
    reveal_strlit("pre");
    reveal_strlit("post");
    reveal_strlit("overnight");
    reveal_strlit("weekend");
    reveal_strlit("blackout");
    let l = k.spec_label();
    assert(text::ascii_lower(l) =~= l);
    assert("pre"@.len() != "regular"@.len());
    assert("post"@.len() == 4);
    assert("regular"@[0] != "weekend"@[0]);
}

/// Away from weekends and holidays, the day is covered by the four sessions
/// without gap: the weekend starts when the Friday post session ends and ends
/// when the Monday pre session starts.
pub proof fn weekend_borders_on_sessions(t: LocalTime)
    ensures
        t.weekday == 4 && !is_weekend(t) ==> session_of_day(t.second as int)
            != SessionKind::Overnight || t.second < clock(4, 0),
        t.weekday == 0 && !is_weekend(t) ==> t.second >= clock(4, 0),
        t.weekday == 0 && t.second == clock(4, 0) ==> session_of_day(t.second as int)
            == SessionKind::Pre && !is_weekend(t),
        t.weekday == 4 && t.second == clock(20, 0) - 1 ==> session_of_day(t.second as int)
            == SessionKind::Post && !is_weekend(t),
{
}

} // verus!
