//! What the terminal interface shows and how it edits the command line.
//!
//! The model below holds the interface's state as plain values and composes
//! every text the terminal shows; the application draws those texts and
//! feeds key presses back in.

use vstd::prelude::*;
use vstd::string::StringExecFns;
use vstd::utf8::decode_utf8;
use crate::codec::{decimal, format_decimal, string_from_utf8};
use crate::constants::ConnectionState;

verus! {

/// Whether `c` has the Unicode `White_Space` property: the controls from tab
/// to carriage return, the space, next line, no-break space, the Ogham space
/// mark, the spaces from en quad to hair space, the line and paragraph
/// separators, the narrow no-break space, the medium mathematical space and
/// the ideographic space.
pub open spec fn is_white_space(c: char) -> bool {
    let n = c as u32;
    (0x09 <= n <= 0x0d) || n == 0x20 || n == 0x85 || n == 0xa0 || n == 0x1680
        || (0x2000 <= n <= 0x200a) || n == 0x2028 || n == 0x2029 || n == 0x202f || n == 0x205f
        || n == 0x3000
}

/// Whether `c` is white space (`char::is_whitespace`).
pub fn char_is_whitespace(c: char) -> (r: bool)
    ensures
        r == is_white_space(c),
{
    let n: u32 = c as u32;
    (0x09 <= n && n <= 0x0d) || n == 0x20 || n == 0x85 || n == 0xa0 || n == 0x1680
        || (0x2000 <= n && n <= 0x200a) || n == 0x2028 || n == 0x2029 || n == 0x202f || n == 0x205f
        || n == 0x3000
}

/// Calls `String::from_iter` over the characters of `chars`.
///
/// Trusted: as std documents, the string holds those characters in order.
#[verifier::external_body]
fn string_from_chars(chars: &[char]) -> (s: String)
    ensures
        s@ == chars@,
{
    String::from_iter(chars.iter())
}

/// The text less its leading white space.
pub open spec fn trim_start(s: Seq<char>) -> Seq<char>
    decreases s.len(),
{
    if s.len() > 0 && is_white_space(s[0]) {
        trim_start(s.drop_first())
    } else {
        s
    }
}

/// The text less its trailing white space.
pub open spec fn trim_end(s: Seq<char>) -> Seq<char>
    decreases s.len(),
{
    if s.len() > 0 && is_white_space(s.last()) {
        trim_end(s.drop_last())
    } else {
        s
    }
}

/// The text less its leading and trailing white space (`str::trim`).
pub open spec fn trim(s: Seq<char>) -> Seq<char> {
    trim_end(trim_start(s))
}

proof fn lemma_trim_start_skip(s: Seq<char>, i: int)
    requires
        0 <= i <= s.len(),
        forall|j: int| 0 <= j < i ==> is_white_space(#[trigger] s[j]),
    ensures
        trim_start(s) == trim_start(s.skip(i)),
    decreases i,
{
    if i > 0 {
        assert(s.drop_first().skip(i - 1) =~= s.skip(i));
        lemma_trim_start_skip(s.drop_first(), i - 1);
    } else {
        assert(s.skip(0) =~= s);
    }
}

proof fn lemma_trim_end_take(s: Seq<char>, i: int)
    requires
        0 <= i <= s.len(),
        forall|j: int| i <= j < s.len() ==> is_white_space(#[trigger] s[j]),
    ensures
        trim_end(s) == trim_end(s.take(i)),
    decreases s.len() - i,
{
    if i < s.len() {
        assert(s.drop_last().take(i) =~= s.take(i));
        lemma_trim_end_take(s.drop_last(), i);
    } else {
        assert(s.take(i) =~= s);
    }
}

proof fn lemma_trim_start_shape(s: Seq<char>)
    ensures
        exists|i: int| 0 <= i <= s.len() && trim_start(s) == s.skip(i)
            && (forall|k: int| 0 <= k < i ==> is_white_space(#[trigger] s[k]))
            && (i < s.len() ==> !is_white_space(s[i])),
    decreases s.len(),
{
    if s.len() > 0 && is_white_space(s[0]) {
        let t = s.drop_first();
        lemma_trim_start_shape(t);
        let i = choose|i: int| 0 <= i <= t.len() && trim_start(t) == t.skip(i)
            && (forall|k: int| 0 <= k < i ==> is_white_space(#[trigger] t[k]))
            && (i < t.len() ==> !is_white_space(t[i]));
        assert(t.skip(i) =~= s.skip(i + 1));
        assert forall|k: int| 0 <= k < i + 1 implies is_white_space(#[trigger] s[k]) by {
            if k > 0 {
                assert(s[k] == t[k - 1]);
            }
        }
        assert(i + 1 < s.len() ==> s[i + 1] == t[i]);
    } else {
        assert(s.skip(0) =~= s);
    }
}

proof fn lemma_trim_end_shape(s: Seq<char>)
    ensures
        exists|j: int| 0 <= j <= s.len() && trim_end(s) == s.take(j)
            && (forall|k: int| j <= k < s.len() ==> is_white_space(#[trigger] s[k]))
            && (j > 0 ==> !is_white_space(s[j - 1])),
    decreases s.len(),
{
    if s.len() > 0 && is_white_space(s.last()) {
        let t = s.drop_last();
        lemma_trim_end_shape(t);
        let j = choose|j: int| 0 <= j <= t.len() && trim_end(t) == t.take(j)
            && (forall|k: int| j <= k < t.len() ==> is_white_space(#[trigger] t[k]))
            && (j > 0 ==> !is_white_space(t[j - 1]));
        assert(t.take(j) =~= s.take(j));
        assert forall|k: int| j <= k < s.len() implies is_white_space(#[trigger] s[k]) by {
            if k < s.len() - 1 {
                assert(s[k] == t[k]);
            }
        }
        assert(j > 0 ==> s[j - 1] == t[j - 1]);
    } else {
        assert(s.take(s.len() as int) =~= s);
    }
}

/// Law (trim): the trimmed text is the stretch of the text left once the
/// white space at both ends is cut: only white space lies before and after
/// it, and it neither begins nor ends with white space.
pub proof fn law_trim(s: Seq<char>)
    ensures
        exists|i: int, j: int| 0 <= i <= j <= s.len() && trim(s) == s.subrange(i, j)
            && (forall|k: int| 0 <= k < i ==> is_white_space(#[trigger] s[k]))
            && (forall|k: int| j <= k < s.len() ==> is_white_space(#[trigger] s[k])),
        trim(s).len() > 0 ==> !is_white_space(trim(s)[0]) && !is_white_space(trim(s)[trim(s).len() - 1]),
{
    lemma_trim_start_shape(s);
    let i = choose|i: int| 0 <= i <= s.len() && trim_start(s) == s.skip(i)
        && (forall|k: int| 0 <= k < i ==> is_white_space(#[trigger] s[k]))
        && (i < s.len() ==> !is_white_space(s[i]));
    let r = s.skip(i);
    lemma_trim_end_shape(r);
    let j = choose|j: int| 0 <= j <= r.len() && trim_end(r) == r.take(j)
        && (forall|k: int| j <= k < r.len() ==> is_white_space(#[trigger] r[k]))
        && (j > 0 ==> !is_white_space(r[j - 1]));
    assert(r.take(j) =~= s.subrange(i, i + j));
    assert forall|k: int| i + j <= k < s.len() implies is_white_space(#[trigger] s[k]) by {
        assert(s[k] == r[k - i]);
    }
    if j > 0 {
        assert(trim(s)[0] == s[i]);
        assert(trim(s)[trim(s).len() - 1] == r[j - 1]);
    }
}

/// The characters of `s`, trimmed (`str::trim`).
pub fn trim_chars(s: &[char]) -> (r: Vec<char>)
    ensures
        r@ == trim(s@),
{
    let mut start: usize = 0;
    while start < s.len() && char_is_whitespace(s[start])
        invariant
            start <= s@.len(),
            forall|j: int| 0 <= j < start ==> is_white_space(#[trigger] s@[j]),
        decreases s@.len() - start,
    {
        start = start + 1;
    }
    proof {
        lemma_trim_start_skip(s@, start as int);
    }
    let ghost rest = s@.skip(start as int);
    let mut end: usize = s.len();
    while end > start && char_is_whitespace(s[end - 1])
        invariant
            start <= end <= s@.len(),
            rest == s@.skip(start as int),
            forall|j: int| end - start <= j < rest.len() ==> is_white_space(#[trigger] rest[j]),
        decreases end,
    {
        end = end - 1;
    }
    proof {
        lemma_trim_end_take(rest, end - start);
        if start < s@.len() {
            assert(!is_white_space(rest[0]));
        }
        assert(trim_start(rest) == rest);
    }
    let mut r: Vec<char> = Vec::new();
    let mut i = start;
    while i < end
        invariant
            start <= i <= end <= s@.len(),
            r@ == s@.subrange(start as int, i as int),
        decreases end - i,
    {
        r.push(s[i]);
        i = i + 1;
        assert(r@ =~= s@.subrange(start as int, i as int));
    }
    proof {
        assert(rest.take(end - start) =~= s@.subrange(start as int, end as int));
        if end > start {
            assert(!is_white_space(rest.take(end - start).last()));
        }
    }
    r
}

/// A key press, as the command line sees it.
#[derive(Clone, Copy, Debug, PartialEq, Eq, Structural)]
pub enum KeyInput {
    /// Enter: submit the command line.
    Enter,
    /// Backspace: delete the last character.
    Backspace,
    /// A character typed.
    Char(char),
    /// Any other key.
    Other,
}

/// The views of a list of strings.
pub open spec fn string_views(v: Seq<String>) -> Seq<Seq<char>> {
    v.map_values(|s: String| s@)
}

/// A list of lines less every line equal to `line`.
pub open spec fn without_line(lines: Seq<Seq<char>>, line: Seq<char>) -> Seq<Seq<char>>
    decreases lines.len(),
{
    if lines.len() == 0 {
        lines
    } else if lines.last() == line {
        without_line(lines.drop_last(), line)
    } else {
        without_line(lines.drop_last(), line).push(lines.last())
    }
}

/// The status shown for a client: whether it has loaded the last track.
pub open spec fn client_status_text(state: ConnectionState) -> Seq<char> {
    if state.acked_signal {
        "Loaded Track"@
    } else {
        "Loading..."@
    }
}

/// `n` copies of `s`, one after the other.
pub open spec fn repeat(s: Seq<char>, n: nat) -> Seq<char>
    decreases n,
{
    if n == 0 {
        Seq::empty()
    } else {
        repeat(s, (n - 1) as nat) + s
    }
}

/// The decimal numeral of `n`, as characters.
pub open spec fn decimal_chars(n: nat) -> Seq<char> {
    decode_utf8(decimal(n))
}

/// The decimal numeral of `n` with at least two digits (`{:02}`).
pub open spec fn two_digits(n: nat) -> Seq<char> {
    if n < 10 {
        "0"@ + decimal_chars(n)
    } else {
        decimal_chars(n)
    }
}

/// The number of the forty blocks of the progress bar that playback has filled.
pub open spec fn blocks_done(pos_secs: u64, duration_secs: u64) -> nat {
    if duration_secs > 0 {
        ((pos_secs * 40) as int / duration_secs as int) as nat
    } else {
        0
    }
}

/// The number of progress-bar blocks that playback has filled.
pub fn progress_blocks(pos_secs: u64, duration_secs: u64) -> (blocks: u64)
    requires
        pos_secs * 40 <= u64::MAX,
    ensures
        blocks as nat == blocks_done(pos_secs, duration_secs),
{
    if duration_secs > 0 {
        pos_secs * 40 / duration_secs
    } else {
        0
    }
}

/// The playback status line: play state, position, progress bar, length and volume.
pub open spec fn audio_status_text(pos_secs: u64, duration_secs: u64, volume: u128, is_playing: bool) -> Seq<char> {
    let blocks = blocks_done(pos_secs, duration_secs);
    " "@ + (if is_playing { "▶"@ } else { "⏸"@ }) + " | "@ + two_digits((pos_secs / 60) as nat) + ":"@
        + two_digits((pos_secs % 60) as nat) + " "@ + repeat("█"@, blocks) + repeat("░"@, (35 - blocks) as nat)
        + " "@ + two_digits((duration_secs / 60) as nat) + ":"@ + two_digits((duration_secs % 60) as nat)
        + " | Vol: "@ + decimal_chars(volume as nat) + "%"@
}

/// The lines joined with a newline between each two.
pub open spec fn join_lines(lines: Seq<Seq<char>>) -> Seq<char>
    decreases lines.len(),
{
    if lines.len() == 0 {
        Seq::empty()
    } else if lines.len() == 1 {
        lines[0]
    } else {
        join_lines(lines.drop_last()) + "\n"@ + lines.last()
    }
}

/// The lines joined with a newline between each two.
fn join_strings(lines: &Vec<String>) -> (s: String)
    ensures
        s@ == join_lines(string_views(lines@)),
{
    let mut s = String::new();
    let mut i: usize = 0;
    while i < lines.len()
        invariant
            i <= lines@.len(),
            s@ == join_lines(string_views(lines@.take(i as int))),
        decreases lines@.len() - i,
    {
        proof {
            assert(string_views(lines@.take(i as int + 1)).drop_last() =~= string_views(lines@.take(i as int)));
            assert(string_views(lines@.take(i as int + 1)).last() == lines@[i as int]@);
        }
        if i > 0 {
            s.append("\n");
        } else {
            proof {
                assert(string_views(lines@.take(1))[0] == lines@[0]@);
            }
        }
        s.append(lines[i].as_str());
        i = i + 1;
    }
    proof {
        assert(lines@.take(i as int) =~= lines@);
    }
    s
}

/// The queue panel's text: the current track (marked), the loaded tracks, then
/// the tracks being downloaded.
pub open spec fn queue_panel_text(current_track: Seq<char>, queue: Seq<Seq<char>>, loading: Seq<Seq<char>>) -> Seq<char> {
    (if current_track != "--"@ { "> "@ + current_track + "\n"@ } else { Seq::empty() })
        + (if queue.len() == 0 { Seq::empty() } else { join_lines(queue) + "\n"@ })
        + (if loading.len() == 0 { Seq::empty() } else { join_lines(loading) })
}

/// The client panel's lines: each client's address and status.
pub open spec fn client_lines(clients: Seq<(String, String)>) -> Seq<Seq<char>> {
    clients.map_values(|c: (String, String)| c.0@ + ": "@ + c.1@)
}

/// The state of the terminal interface.
pub struct UiModel {
    /// The pairing key shown to the operator.
    pub pairing_key: String,
    /// Whether this is the server's interface (with clients and a command line).
    pub is_server: bool,
    /// The status message.
    pub status: String,
    /// The current track's title, or `--`.
    pub current_track: String,
    /// The loaded tracks' lines.
    pub queue: Vec<String>,
    /// The lines of tracks being downloaded.
    pub loading_queue: Vec<String>,
    /// Each client's address and status.
    pub clients: Vec<(String, String)>,
    /// The playback status line.
    pub audio_info: String,
    /// The command being typed.
    pub input_buffer: Vec<char>,
}

/// A string holding `s`.
fn owned(s: &str) -> (r: String)
    ensures
        r@ == s@,
{
    s.to_owned()
}

/// The decimal numeral of `n`, as a string.
fn decimal_string(n: u128) -> (s: String)
    ensures
        s@ == decimal_chars(n as nat),
{
    let bytes = format_decimal(n);
    proof {
        crate::codec::lemma_decimal_digits(n as nat);
        lemma_digits_valid_utf8(bytes@);
    }
    match string_from_utf8(bytes) {
        Ok(s) => s,
        Err(_) => {
            proof {
                assert(false);
            }
            String::new()
        },
    }
}

proof fn lemma_digits_valid_utf8(s: Seq<u8>)
    requires
        crate::codec::all_digits(s),
    ensures
        vstd::utf8::valid_utf8(s),
    decreases s.len(),
{
    if s.len() > 0 {
        assert(crate::codec::is_digit(s[0]));
        assert(vstd::utf8::length_of_first_scalar(s) == 1);
        assert(vstd::utf8::pop_first_scalar(s) =~= s.skip(1));
        assert forall|i: int| 0 <= i < s.skip(1).len() implies crate::codec::is_digit(#[trigger] s.skip(1)[i]) by {
            assert(s.skip(1)[i] == s[i + 1]);
        }
        lemma_digits_valid_utf8(s.skip(1));
    }
}

/// The decimal numeral of `n` with at least two digits.
fn two_digit_string(n: u64) -> (s: String)
    ensures
        s@ == two_digits(n as nat),
{
    let digits = decimal_string(n as u128);
    if n < 10 {
        let mut s = owned("0");
        s.append(digits.as_str());
        s
    } else {
        digits
    }
}

/// `n` copies of `piece`.
fn repeat_string(piece: &str, n: usize) -> (s: String)
    ensures
        s@ == repeat(piece@, n as nat),
{
    let mut s = String::new();
    let mut i: usize = 0;
    while i < n
        invariant
            i <= n,
            s@ == repeat(piece@, i as nat),
        decreases n - i,
    {
        s.append(piece);
        i = i + 1;
    }
    s
}

impl UiModel {
    /// A fresh interface showing `pairing_key`.
    pub fn new(pairing_key: String, is_server: bool) -> (ui: UiModel)
        ensures
            ui.pairing_key == pairing_key,
            ui.is_server == is_server,
            ui.status@ == "Ready to pair"@,
            ui.current_track@ == "--"@,
            ui.queue@.len() == 0,
            ui.loading_queue@.len() == 0,
            ui.clients@.len() == 0,
            ui.audio_info@ == ""@,
            ui.input_buffer@.len() == 0,
    {
        UiModel {
            pairing_key,
            is_server,
            status: owned("Ready to pair"),
            current_track: owned("--"),
            queue: Vec::new(),
            loading_queue: Vec::new(),
            clients: Vec::new(),
            audio_info: owned(""),
            input_buffer: Vec::new(),
        }
    }

    /// Shows the loaded tracks, each indented by two spaces.
    pub fn update_queue(&mut self, queue: Vec<String>)
        ensures
            final(self).queue@.len() == queue@.len(),
            forall|i: int| 0 <= i < queue@.len() ==> #[trigger] final(self).queue@[i]@ == "  "@ + queue@[i]@,
            *final(self) == (UiModel { queue: final(self).queue, ..*old(self) }),
    {
        let mut lines: Vec<String> = Vec::new();
        let mut i: usize = 0;
        while i < queue.len()
            invariant
                i <= queue@.len(),
                lines@.len() == i,
                forall|j: int| 0 <= j < i ==> #[trigger] lines@[j]@ == "  "@ + queue@[j]@,
            decreases queue@.len() - i,
        {
            let mut line = owned("  ");
            line.append(queue[i].as_str());
            lines.push(line);
            i = i + 1;
        }
        self.queue = lines;
    }

    /// Shows the current track's title, or `--` when there is none.
    pub fn update_current_track(&mut self, track: Option<String>)
        ensures
            final(self).current_track@ == match track {
                Some(t) => t@,
                None => "--"@,
            },
            *final(self) == (UiModel { current_track: final(self).current_track, ..*old(self) }),
    {
        self.current_track = match track {
            Some(t) => t,
            None => owned("--"),
        };
    }

    /// Shows a track as being downloaded.
    pub fn add_to_loading_queue(&mut self, track: String)
        ensures
            string_views(final(self).loading_queue@) == string_views(old(self).loading_queue@).push("* "@ + track@),
            *final(self) == (UiModel { loading_queue: final(self).loading_queue, ..*old(self) }),
    {
        let mut line = owned("* ");
        line.append(track.as_str());
        self.loading_queue.push(line);
        proof {
            assert(string_views(self.loading_queue@) =~= string_views(old(self).loading_queue@).push("* "@ + track@));
        }
    }

    /// Stops showing a track as being downloaded.
    pub fn remove_from_loading_queue(&mut self, track: String)
        ensures
            string_views(final(self).loading_queue@) == without_line(string_views(old(self).loading_queue@), "* "@ + track@),
            *final(self) == (UiModel { loading_queue: final(self).loading_queue, ..*old(self) }),
    {
        let mut line = owned("* ");
        line.append(track.as_str());
        let ghost all = string_views(self.loading_queue@);
        let mut kept: Vec<String> = Vec::new();
        let mut i: usize = 0;
        while i < self.loading_queue.len()
            invariant
                i <= self.loading_queue@.len(),
                all == string_views(self.loading_queue@),
                line@ == "* "@ + track@,
                string_views(kept@) == without_line(all.take(i as int), line@),
            decreases self.loading_queue@.len() - i,
        {
            let item = self.loading_queue[i].clone();
            proof {
                assert(all.take(i as int + 1).drop_last() =~= all.take(i as int));
                assert(all.take(i as int + 1).last() == item@);
            }
            if item != line {
                kept.push(item);
                proof {
                    assert(string_views(kept@) =~= without_line(all.take(i as int), line@).push(item@));
                }
            }
            i = i + 1;
        }
        proof {
            assert(all.take(i as int) =~= all);
        }
        self.loading_queue = kept;
    }

    /// Shows each client's address and whether it has loaded the last track.
    pub fn render_current_clients(&mut self, clients: Vec<(String, ConnectionState)>)
        ensures
            final(self).clients@.len() == clients@.len(),
            forall|i: int| 0 <= i < clients@.len() ==> #[trigger] final(self).clients@[i].0 == clients@[i].0
                && final(self).clients@[i].1@ == client_status_text(clients@[i].1),
            *final(self) == (UiModel { clients: final(self).clients, ..*old(self) }),
    {
        let mut shown: Vec<(String, String)> = Vec::new();
        let mut i: usize = 0;
        while i < clients.len()
            invariant
                i <= clients@.len(),
                shown@.len() == i,
                forall|j: int| 0 <= j < i ==> #[trigger] shown@[j].0 == clients@[j].0
                    && shown@[j].1@ == client_status_text(clients@[j].1),
            decreases clients@.len() - i,
        {
            let status = if clients[i].1.acked_signal {
                owned("Loaded Track")
            } else {
                owned("Loading...")
            };
            let name = clients[i].0.clone();
            assert(name == clients@[i as int].0);
            shown.push((name, status));
            assert(shown@[i as int].1@ == client_status_text(clients@[i as int].1));
            i = i + 1;
        }
        self.clients = shown;
    }

    /// Shows a status message.
    pub fn set_status(&mut self, msg: String)
        ensures
            *final(self) == (UiModel { status: msg, ..*old(self) }),
    {
        self.status = msg;
    }

    /// Shows the playback status: play state, position, progress bar (forty
    /// blocks for the whole track, of which the line holds thirty-five),
    /// length and volume.
    pub fn update_audio_status(&mut self, pos_secs: u64, duration_secs: u64, volume: u128, is_playing: bool)
        requires
            pos_secs * 40 <= u64::MAX,
            blocks_done(pos_secs, duration_secs) <= 35,
        ensures
            final(self).audio_info@ == audio_status_text(pos_secs, duration_secs, volume, is_playing),
            *final(self) == (UiModel { audio_info: final(self).audio_info, ..*old(self) }),
    {
        let blocks = progress_blocks(pos_secs, duration_secs);
        let mut s = owned(" ");
        if is_playing {
            s.append("▶");
        } else {
            s.append("⏸");
        }
        s.append(" | ");
        s.append(two_digit_string(pos_secs / 60).as_str());
        s.append(":");
        s.append(two_digit_string(pos_secs % 60).as_str());
        s.append(" ");
        s.append(repeat_string("█", blocks as usize).as_str());
        s.append(repeat_string("░", (35 - blocks) as usize).as_str());
        s.append(" ");
        s.append(two_digit_string(duration_secs / 60).as_str());
        s.append(":");
        s.append(two_digit_string(duration_secs % 60).as_str());
        s.append(" | Vol: ");
        s.append(decimal_string(volume).as_str());
        s.append("%");
        self.audio_info = s;
    }

    /// Takes a key press on the command line: characters are typed, Backspace
    /// deletes the last one, and Enter submits the line trimmed (when anything
    /// is left of it) and clears it.
    pub fn handle_key(&mut self, key: KeyInput) -> (command: Option<String>)
        ensures
            match key {
                KeyInput::Enter => {
                    &&& final(self).input_buffer@.len() == 0
                    &&& if trim(old(self).input_buffer@).len() > 0 {
                        command matches Some(c) && c@ == trim(old(self).input_buffer@)
                    } else {
                        command is None
                    }
                },
                KeyInput::Backspace => command is None && final(self).input_buffer@ == if old(
                    self,
                ).input_buffer@.len() > 0 {
                    old(self).input_buffer@.drop_last()
                } else {
                    old(self).input_buffer@
                },
                KeyInput::Char(c) => command is None && final(self).input_buffer@ == old(
                    self,
                ).input_buffer@.push(c),
                KeyInput::Other => command is None && final(self).input_buffer@ == old(self).input_buffer@,
            },
            *final(self) == (UiModel { input_buffer: final(self).input_buffer, ..*old(self) }),
    {
        match key {
            KeyInput::Enter => {
                let cmd = trim_chars(self.input_buffer.as_slice());
                self.input_buffer.clear();
                if cmd.len() > 0 {
                    Some(string_from_chars(cmd.as_slice()))
                } else {
                    None
                }
            },
            KeyInput::Backspace => {
                self.input_buffer.pop();
                None
            },
            KeyInput::Char(c) => {
                self.input_buffer.push(c);
                None
            },
            KeyInput::Other => None,
        }
    }

    /// The queue panel's text.
    pub fn queue_text(&self) -> (s: String)
        ensures
            s@ == queue_panel_text(self.current_track@, string_views(self.queue@), string_views(self.loading_queue@)),
    {
        let mut s = String::new();
        let none = owned("--");
        if self.current_track != none {
            s.append("> ");
            s.append(self.current_track.as_str());
            s.append("\n");
        }
        if self.queue.len() > 0 {
            s.append(join_strings(&self.queue).as_str());
            s.append("\n");
        }
        if self.loading_queue.len() > 0 {
            s.append(join_strings(&self.loading_queue).as_str());
        }
        s
    }

    /// The client panel's text: `--` when no client is connected.
    pub fn clients_text(&self) -> (s: String)
        ensures
            s@ == if self.clients@.len() == 0 {
                "--"@
            } else {
                join_lines(client_lines(self.clients@))
            },
    {
        if self.clients.len() == 0 {
            return owned("--");
        }
        let mut lines: Vec<String> = Vec::new();
        let mut i: usize = 0;
        while i < self.clients.len()
            invariant
                i <= self.clients@.len(),
                lines@.len() == i,
                string_views(lines@) == client_lines(self.clients@.take(i as int)),
            decreases self.clients@.len() - i,
        {
            let mut line = self.clients[i].0.clone();
            line.append(": ");
            line.append(self.clients[i].1.as_str());
            let ghost before = string_views(lines@);
            let ghost old_lines = lines@;
            lines.push(line);
            proof {
                let next = client_lines(self.clients@.take(i as int + 1));
                assert(next[i as int] == self.clients@[i as int].0@ + ": "@ + self.clients@[i as int].1@);
                assert forall|j: int| 0 <= j < i implies #[trigger] next[j] == before[j] by {
                    assert(next[j] == client_lines(self.clients@.take(i as int))[j]);
                }
                assert forall|j: int| 0 <= j <= i implies #[trigger] string_views(lines@)[j] == next[j] by {
                    if j < i {
                        assert(lines@[j] == old_lines[j]);
                        assert(before[j] == old_lines[j]@);
                    }
                }
                assert(string_views(lines@) =~= next);
            }
            i = i + 1;
        }
        proof {
            assert(self.clients@.take(i as int) =~= self.clients@);
        }
        join_strings(&lines)
    }

    /// The header text: the pairing key and the status.
    pub fn status_text(&self) -> (s: String)
        ensures
            s@ == "Pairing Key: \t"@ + self.pairing_key@ + "\nStatus: \t"@ + self.status@,
    {
        let mut s = owned("Pairing Key: \t");
        s.append(self.pairing_key.as_str());
        s.append("\nStatus: \t");
        s.append(self.status.as_str());
        s
    }

    /// The now-playing text: the current track, then the playback status line.
    pub fn track_text(&self) -> (s: String)
        ensures
            s@ == self.current_track@ + "\n"@ + self.audio_info@,
    {
        let mut s = self.current_track.clone();
        s.append("\n");
        s.append(self.audio_info.as_str());
        s
    }

    /// The command line as shown: a prompt, then what is being typed.
    pub fn input_text(&self) -> (s: String)
        ensures
            s@ == "> "@ + self.input_buffer@,
    {
        let mut s = owned("> ");
        let typed = string_from_chars(self.input_buffer.as_slice());
        s.append(typed.as_str());
        s
    }
}

} // verus!
