//! A line of the conversation as the client shows it.

use vstd::prelude::*;

verus! {

/// The source of the lines that come from the server itself.
pub open spec fn notice_source() -> Seq<char> {
    "NOTICE"@
}

/// A line of the conversation: who said what, and when.
#[derive(Debug, PartialEq, Eq)]
pub struct Message {
    /// When the line was taken down, in seconds since the first of January
    /// 1970, universal time.
    pub ts: i64,
    pub source: String,
    pub text: String,
}

/// A [`Message`] as a mathematical value.
pub struct Line {
    pub ts: i64,
    pub source: Seq<char>,
    pub text: Seq<char>,
}

impl View for Message {
    type V = Line;

    open spec fn view(&self) -> Line {
        Line { ts: self.ts, source: self.source@, text: self.text@ }
    }
}

impl Clone for Message {
    fn clone(&self) -> (r: Self)
        ensures
            r@ == self@,
    {
        Message { ts: self.ts, source: self.source.clone(), text: self.text.clone() }
    }
}

/// The time of day and the date of `ts` as `chrono` writes them for the
/// pattern `%R, %d. %B`: hours and minutes, the day of the month, and the name
/// of the month, in universal time.
pub uninterp spec fn clock_text(ts: i64) -> Seq<char>;

/// The time of the machine's clock, which `chrono` turns into a time of day in
/// universal time (its `From<SystemTime>` for `DateTime<Utc>`), in whole
/// seconds since the first of January 1970. A clock that stands before 1970
/// gives a negative number. Nothing is known of the time.
#[verifier::external_body]
pub(crate) fn now() -> i64 {
    chrono::DateTime::<chrono::Utc>::from(std::time::SystemTime::now()).timestamp()
}

/// `chrono::DateTime::from_timestamp`, then `DateTime::format` with the
/// pattern `%R, %d. %B`. What comes out depends on `ts` alone: the time is
/// universal time, and the names of the months are the English ones. For a time
/// that `chrono` cannot hold, nothing is written.
#[verifier::external_body]
fn format_clock(ts: i64) -> (r: String)
    ensures
        r@ == clock_text(ts),
{
    match chrono::DateTime::from_timestamp(ts, 0) {
        Some(time) => time.format("%R, %d. %B").to_string(),
        None => String::new(),
    }
}

/// A line as it is shown: the time in square brackets, the source in angle
/// brackets, the text.
pub open spec fn shown(line: Line) -> Seq<char> {
    "["@ + clock_text(line.ts) + "] <"@ + line.source + "> "@ + line.text
}

impl Message {
    /// A line that `source` said at the time `ts`.
    pub fn user_at(source: &str, text: &str, ts: i64) -> (r: Self)
        ensures
            r@ == (Line { ts, source: source@, text: text@ }),
    {
        Message { ts, source: source.to_owned(), text: text.to_owned() }
    }

    /// A line of the server's own at the time `ts`.
    pub fn notice_at(text: &str, ts: i64) -> (r: Self)
        ensures
            r@ == (Line { ts, source: notice_source(), text: text@ }),
    {
        Message { ts, source: "NOTICE".to_owned(), text: text.to_owned() }
    }

    /// A line that `source` says now.
    pub fn user(source: &str, text: &str) -> (r: Self)
        ensures
            r@.source == source@,
            r@.text == text@,
    {
        Message::user_at(source, text, now())
    }

    /// A line of the server's own, now.
    pub fn notice(text: &str) -> (r: Self)
        ensures
            r@.source == notice_source(),
            r@.text == text@,
    {
        Message::notice_at(text, now())
    }

    /// The line as it is shown.
    pub fn to_string(&self) -> (r: String)
        ensures
            r@ == shown(self@),
    {
        let mut out = "[".to_owned();
        let clock = format_clock(self.ts);
        out.push_str(clock.as_str());
        out.push_str("] <");
        out.push_str(self.source.as_str());
        out.push_str("> ");
        out.push_str(self.text.as_str());
        out
    }
}

} // verus!
