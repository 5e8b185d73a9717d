//! Where a client's transcript and summary live, and the text written to them.

use vstd::prelude::*;
use vstd::string::*;

use crate::clock::{date_time_text, day_text, time_text, Stamp};
use crate::summary::{parse_summary, render_summary, touch_entries, upsert_entries, SummaryRecord};
use crate::text::{upper_of, uppercase};

verus! {

/// A client's log location: its directory and the day whose transcript is written.
#[derive(Clone, Debug)]
pub struct ChatLogger {
    pub client_dir: String,
    pub current_date: String,
}

/// A remote address made safe as a directory name: each `:` becomes `-`.
pub open spec fn client_token(ip: Seq<char>) -> Seq<char> {
    ip.map_values(|c: char| if c == ':' { '-' } else { c })
}

/// `tail` joined onto `base` as `PathBuf::join` does on Unix: an absolute
/// `tail` replaces `base`; otherwise a `/` goes between them unless `base` is
/// empty or already ends in one.
pub open spec fn join_path(base: Seq<char>, tail: Seq<char>) -> Seq<char> {
    if tail.len() > 0 && tail[0] == '/' {
        tail
    } else if base.len() == 0 || base.last() == '/' {
        base + tail
    } else {
        base + seq!['/'] + tail
    }
}

/// `[HH:MM:SS] ROLE: content` and a newline.
pub open spec fn message_text(role: Seq<char>, content: Seq<char>, at: Stamp) -> Seq<char> {
    "["@ + time_text(at) + "] "@ + upper_of(role) + ": "@ + content + "\n"@
}

pub open spec fn banner_text(what: Seq<char>, at: Stamp) -> Seq<char> {
    "\n--- Session "@ + what + " at "@ + date_time_text(at) + " ---\n"@ + "\n"@
}

fn sanitize(ip: &str) -> (r: String)
    ensures
        r@ == client_token(ip@),
{
    let n = ip.unicode_len();
    let mut out = String::new();
    let mut i: usize = 0;
    while i < n
        invariant
            n == ip@.len(),
            i <= n,
            out@ == client_token(ip@.take(i as int)),
        decreases n - i,
    {
        let ghost before = out@;
        if ip.get_char(i) == ':' {
            proof {
                reveal_strlit("-");
            }
            out.append("-");
        } else {
            out.append(ip.substring_char(i, i + 1));
        }
        assert(ip@.take(i + 1) =~= ip@.take(i as int).push(ip@[i as int]));
        assert(out@ =~= client_token(ip@.take(i + 1)));
        i = i + 1;
    }
    assert(ip@.take(n as int) =~= ip@);
    out
}

fn join(base: &str, tail: &str) -> (r: String)
    ensures
        r@ == join_path(base@, tail@),
{
    if tail.unicode_len() > 0 && tail.get_char(0) == '/' {
        return String::from_str(tail);
    }
    let n = base.unicode_len();
    let mut r = String::from_str(base);
    if n > 0 && base.get_char(n - 1) != '/' {
        proof {
            reveal_strlit("/");
        }
        r.append("/");
    }
    r.append(tail);
    r
}

impl ChatLogger {
    /// The log location of the client at `client_ip` under `logs_dir`, writing
    /// to the transcript of the day of `today`.
    pub fn new(logs_dir: &str, client_ip: &str, today: &Stamp) -> (r: ChatLogger)
        ensures
            r.client_dir@ == join_path(logs_dir@, client_token(client_ip@)),
            r.current_date@ == day_text(*today),
    {
        let token = sanitize(client_ip);
        ChatLogger { client_dir: join(logs_dir, token.as_str()), current_date: today.day_string() }
    }

    /// The directory of the client's daily transcripts.
    pub fn chats_dir(&self) -> (r: String)
        ensures
            r@ == join_path(self.client_dir@, "chats"@),
    {
        join(self.client_dir.as_str(), "chats")
    }

    /// The transcript of the day the logger was made for: `chats/<DD-MM-YY>.txt`.
    pub fn chat_file_path(&self) -> (r: String)
        ensures
            r@ == join_path(join_path(self.client_dir@, "chats"@), self.current_date@ + ".txt"@),
    {
        let mut name = self.current_date.clone();
        name.append(".txt");
        join(self.chats_dir().as_str(), name.as_str())
    }

    /// The transcript of the day of `at`: `chats/<DD-MM-YY>.txt`.
    pub fn day_file_path(&self, at: &Stamp) -> (r: String)
        ensures
            r@ == join_path(join_path(self.client_dir@, "chats"@), day_text(*at) + ".txt"@),
    {
        let mut name = at.day_string();
        name.append(".txt");
        join(self.chats_dir().as_str(), name.as_str())
    }

    /// The client's summary record.
    pub fn summary_file_path(&self) -> (r: String)
        ensures
            r@ == join_path(self.client_dir@, "summary.txt"@),
    {
        join(self.client_dir.as_str(), "summary.txt")
    }

    /// The transcript line of one message.
    pub fn message_line(role: &str, content: &str, at: &Stamp) -> (r: String)
        ensures
            r@ == message_text(role@, content@, *at),
    {
        let mut r = String::from_str("[");
        r.append(at.time_string().as_str());
        r.append("] ");
        r.append(uppercase(role).as_str());
        r.append(": ");
        r.append(content);
        r.append("\n");
        r
    }

    fn banner(what: &str, at: &Stamp) -> (r: String)
        ensures
            r@ == banner_text(what@, *at),
    {
        let mut r = String::from_str("\n--- Session ");
        r.append(what);
        r.append(" at ");
        r.append(at.date_time_string().as_str());
        r.append(" ---\n");
        r.append("\n");
        r
    }

    /// The transcript text that opens a session.
    pub fn session_start_text(at: &Stamp) -> (r: String)
        ensures
            r@ == banner_text("started"@, *at),
    {
        Self::banner("started", at)
    }

    /// The transcript text that closes a session.
    pub fn session_end_text(at: &Stamp) -> (r: String)
        ensures
            r@ == banner_text("ended"@, *at),
    {
        Self::banner("ended", at)
    }

    /// The new summary file text after setting `key` to `value` at time `at`,
    /// from the file's current text (empty when there is no file).
    pub fn updated_summary(existing: &str, key: &str, value: &str, at: &Stamp) -> (r: String)
        ensures
            r@ == render_summary(
                upsert_entries(parse_summary(existing@), key@, value@, date_time_text(*at)),
            ),
    {
        let mut rec = SummaryRecord::parse(existing);
        rec.upsert(key, value, at.date_time_string().as_str());
        rec.render()
    }

    /// The new summary file text after refreshing `last_seen` at time `at`.
    pub fn touched_summary(existing: &str, at: &Stamp) -> (r: String)
        ensures
            r@ == render_summary(touch_entries(parse_summary(existing@), date_time_text(*at))),
    {
        let mut rec = SummaryRecord::parse(existing);
        rec.touch(at.date_time_string().as_str());
        rec.render()
    }
}

} // verus!
