//! Cutting a snapshot or a session list down to the size of one frame.
//!
//! How many bytes a message takes on the wire is measured by a function that
//! the caller hands in. What is measured, and what is given up in which order,
//! is settled here.
use vstd::prelude::*;
use vstd::string::*;
use crate::session_protocol::{
    ServerMessage, SessionListEntry, SessionSnapshot, SessionWorkspace, ToolCallState,
    TranscriptEntry,
};
use crate::text::{decimal, decimal_string};

verus! {

broadcast use vstd::string::group_string_axioms;

pub fn tool_call_is_terminal(call: &ToolCallState) -> (terminal: bool)
    ensures
        terminal == call.status.terminal(),
{
    call.status.is_terminal()
}

/// A call without its output where it is over.
pub open spec fn stripped_call(call: ToolCallState) -> ToolCallState {
    if call.status.terminal() {
        ToolCallState { output: None, ..call }
    } else {
        call
    }
}

pub open spec fn stripped_calls(calls: Seq<ToolCallState>) -> Seq<ToolCallState> {
    calls.map_values(|call: ToolCallState| stripped_call(call))
}

/// How many of the calls are over.
pub open spec fn terminal_count(calls: Seq<ToolCallState>) -> nat
    decreases calls.len(),
{
    if calls.len() == 0 {
        0
    } else {
        terminal_count(calls.drop_last()) + if calls.last().status.terminal() {
            1nat
        } else {
            0
        }
    }
}

/// The calls without the oldest that are over, as many as are to go.
pub open spec fn without_oldest_terminal(calls: Seq<ToolCallState>, drop_count: nat) -> Seq<
    ToolCallState,
>
    decreases calls.len(),
{
    if calls.len() == 0 {
        Seq::empty()
    } else {
        let kept = without_oldest_terminal(calls.drop_last(), drop_count);
        if calls.last().status.terminal() && terminal_count(calls.drop_last()) < drop_count {
            kept
        } else {
            kept.push(calls.last())
        }
    }
}

fn count_terminal(calls: &Vec<ToolCallState>) -> (count: usize)
    ensures
        count == terminal_count(calls@),
        count <= calls@.len(),
{
    let mut count: usize = 0;
    let mut i: usize = 0;
    while i < calls.len()
        invariant
            i <= calls@.len(),
            count == terminal_count(calls@.take(i as int)),
            count <= i,
        decreases calls@.len() - i,
    {
        assert(calls@.take(i + 1).drop_last() =~= calls@.take(i as int));
        if tool_call_is_terminal(&calls[i]) {
            count = count + 1;
        }
        i = i + 1;
    }
    assert(calls@.take(i as int) =~= calls@);
    count
}

pub fn tool_calls_without_oldest_terminal(tool_calls: &Vec<ToolCallState>, drop_count: usize) -> (
    kept: Vec<ToolCallState>)
    ensures
        kept@ == without_oldest_terminal(tool_calls@, drop_count as nat),
{
    let mut kept: Vec<ToolCallState> = Vec::new();
    let mut terminal_seen: usize = 0;
    let mut i: usize = 0;
    while i < tool_calls.len()
        invariant
            i <= tool_calls@.len(),
            terminal_seen <= i,
            terminal_seen == if terminal_count(tool_calls@.take(i as int)) < drop_count {
                terminal_count(tool_calls@.take(i as int))
            } else {
                drop_count as nat
            },
            kept@ == without_oldest_terminal(tool_calls@.take(i as int), drop_count as nat),
        decreases tool_calls@.len() - i,
    {
        assert(tool_calls@.take(i + 1).drop_last() =~= tool_calls@.take(i as int));
        if tool_call_is_terminal(&tool_calls[i]) && terminal_seen < drop_count {
            terminal_seen = terminal_seen + 1;
        } else {
            kept.push(tool_calls[i].clone());
        }
        i = i + 1;
    }
    assert(tool_calls@.take(i as int) =~= tool_calls@);
    kept
}

fn strip_outputs(calls: &Vec<ToolCallState>) -> (stripped: Vec<ToolCallState>)
    ensures
        stripped@ == stripped_calls(calls@),
{
    let mut stripped: Vec<ToolCallState> = Vec::new();
    let mut i: usize = 0;
    while i < calls.len()
        invariant
            i <= calls@.len(),
            stripped@ =~= stripped_calls(calls@.take(i as int)),
        decreases calls@.len() - i,
    {
        let mut call = calls[i].clone();
        if tool_call_is_terminal(&call) {
            call.output = None;
        }
        stripped.push(call);
        i = i + 1;
    }
    assert(calls@.take(i as int) =~= calls@);
    stripped
}

fn entries_from(entries: &Vec<TranscriptEntry>, from: usize) -> (kept: Vec<TranscriptEntry>)
    requires
        from <= entries@.len(),
    ensures
        kept@ == entries@.skip(from as int),
{
    let mut kept: Vec<TranscriptEntry> = Vec::new();
    let mut i: usize = from;
    while i < entries.len()
        invariant
            from <= i <= entries@.len(),
            kept@ =~= entries@.subrange(from as int, i as int),
        decreases entries@.len() - i,
    {
        kept.push(entries[i].clone());
        i = i + 1;
    }
    assert(entries@.subrange(from as int, i as int) =~= entries@.skip(from as int));
    kept
}

/// Whether a snapshot is another one cut down: marked as truncated, without the
/// output of finished calls, without the oldest transcript entries and without
/// the oldest finished calls. All else is as it was.
pub open spec fn cut_down(
    whole: SessionSnapshot,
    cut: SessionSnapshot,
    entries_dropped: int,
    calls_dropped: int,
) -> bool {
    &&& cut == (SessionSnapshot {
        transcript: cut.transcript,
        tool_calls: cut.tool_calls,
        history_truncated: true,
        ..whole
    })
    &&& 0 <= entries_dropped <= whole.transcript@.len()
    &&& cut.transcript@ == whole.transcript@.skip(entries_dropped)
    &&& 0 <= calls_dropped <= terminal_count(whole.tool_calls@)
    &&& cut.tool_calls@ == without_oldest_terminal(
        stripped_calls(whole.tool_calls@),
        calls_dropped as nat,
    )
}

/// Whether the snapshot itself was measured within the frame.
pub open spec fn measured_within<F: Fn(&SessionSnapshot) -> Result<usize, String>>(
    measure: F,
    snapshot: SessionSnapshot,
    max_frame_bytes: usize,
) -> bool {
    exists|size: usize| #[trigger]
        measure.ensures((&snapshot,), Ok(size)) && size <= max_frame_bytes
}

pub open spec fn measured_over<F: Fn(&SessionSnapshot) -> Result<usize, String>>(
    measure: F,
    snapshot: SessionSnapshot,
    max_frame_bytes: usize,
) -> bool {
    exists|size: usize| #[trigger]
        measure.ensures((&snapshot,), Ok(size)) && size > max_frame_bytes
}

/// Whether a snapshot so cut down was measured over the frame.
pub open spec fn cut_measured_over<F: Fn(&SessionSnapshot) -> Result<usize, String>>(
    measure: F,
    whole: SessionSnapshot,
    entries_dropped: int,
    calls_dropped: int,
    max_frame_bytes: usize,
) -> bool {
    exists|cut: SessionSnapshot|
        cut_down(whole, cut, entries_dropped, calls_dropped) && #[trigger] measured_over(
            measure,
            cut,
            max_frame_bytes,
        )
}

pub open spec fn cut_measured_within<F: Fn(&SessionSnapshot) -> Result<usize, String>>(
    measure: F,
    whole: SessionSnapshot,
    entries_dropped: int,
    calls_dropped: int,
    max_frame_bytes: usize,
) -> bool {
    exists|cut: SessionSnapshot|
        cut_down(whole, cut, entries_dropped, calls_dropped) && #[trigger] measured_within(
            measure,
            cut,
            max_frame_bytes,
        )
}

/// Whether so many transcript entries are the fewest that had to go: one less
/// was over, and with all of them gone or so many the search ended.
pub open spec fn entries_settled<F: Fn(&SessionSnapshot) -> Result<usize, String>>(
    measure: F,
    whole: SessionSnapshot,
    entries_dropped: int,
    max_frame_bytes: usize,
) -> bool {
    &&& measured_over(measure, whole, max_frame_bytes)
    &&& cut_measured_over(measure, whole, 0, 0, max_frame_bytes)
    &&& 0 <= entries_dropped <= whole.transcript@.len()
    &&& entries_dropped > 0 ==> cut_measured_over(
        measure,
        whole,
        entries_dropped - 1,
        0,
        max_frame_bytes,
    )
    &&& entries_dropped < whole.transcript@.len() ==> cut_measured_within(
        measure,
        whole,
        entries_dropped,
        0,
        max_frame_bytes,
    )
}

/// The same of finished calls, with the transcript already settled.
pub open spec fn calls_settled<F: Fn(&SessionSnapshot) -> Result<usize, String>>(
    measure: F,
    whole: SessionSnapshot,
    entries_dropped: int,
    calls_dropped: int,
    max_frame_bytes: usize,
) -> bool {
    &&& entries_settled(measure, whole, entries_dropped, max_frame_bytes)
    &&& cut_measured_over(measure, whole, entries_dropped, 0, max_frame_bytes)
    &&& 0 <= calls_dropped <= terminal_count(whole.tool_calls@)
    &&& calls_dropped > 0 ==> cut_measured_over(
        measure,
        whole,
        entries_dropped,
        calls_dropped - 1,
        max_frame_bytes,
    )
    &&& calls_dropped < terminal_count(whole.tool_calls@) ==> cut_measured_within(
        measure,
        whole,
        entries_dropped,
        calls_dropped,
        max_frame_bytes,
    )
}

/// Whether the measuring function failed with an error on the snapshot or on
/// one cut down from it.
pub open spec fn measuring_failed<F: Fn(&SessionSnapshot) -> Result<usize, String>>(
    measure: F,
    whole: SessionSnapshot,
    text: Seq<char>,
) -> bool {
    exists|probe: SessionSnapshot, error: String|
        #![trigger measure.ensures((&probe,), Err(error))]
        measure.ensures((&probe,), Err(error)) && text == "snapshot serialization failed: "@
            + error@ && (probe == whole || exists|entries: int, calls: int|
            #[trigger] cut_down(whole, probe, entries, calls))
}

pub open spec fn snapshot_limit_text(max_frame_bytes: usize) -> Seq<char> {
    "session snapshot exceeds the configured "@ + decimal(max_frame_bytes as nat)
        + "-byte frame limit"@
}

/// What fitting comes to: the snapshot as it is where it fits; else without the
/// output of finished calls; else also without as few of the oldest transcript
/// entries as will do; else also without as few of the oldest finished calls.
pub open spec fn fitted<F: Fn(&SessionSnapshot) -> Result<usize, String>>(
    measure: F,
    whole: SessionSnapshot,
    max_frame_bytes: usize,
    result: Result<SessionSnapshot, String>,
) -> bool {
    match result {
        Ok(cut) => {
            &&& measured_within(measure, cut, max_frame_bytes)
            &&& {
                ||| cut == whole
                ||| measured_over(measure, whole, max_frame_bytes) && cut_down(whole, cut, 0, 0)
                ||| exists|entries: int|
                    cut_down(whole, cut, entries, 0) && #[trigger] entries_settled(
                        measure,
                        whole,
                        entries,
                        max_frame_bytes,
                    )
                ||| exists|entries: int, calls: int|
                    cut_down(whole, cut, entries, calls) && #[trigger] calls_settled(
                        measure,
                        whole,
                        entries,
                        calls,
                        max_frame_bytes,
                    )
            }
        },
        Err(text) => {
            ||| measuring_failed(measure, whole, text@)
            ||| text@ == snapshot_limit_text(max_frame_bytes) && exists|entries: int, calls: int|
                #[trigger] calls_settled(measure, whole, entries, calls, max_frame_bytes)
                    && cut_measured_over(measure, whole, entries, calls, max_frame_bytes)
        },
    }
}

fn snapshot_limit_message(max_frame_bytes: usize) -> (text: String)
    ensures
        text@ == snapshot_limit_text(max_frame_bytes),
{
    let mut text = "session snapshot exceeds the configured ".to_owned();
    let bytes = decimal_string(max_frame_bytes as u64);
    text.append(bytes.as_str());
    text.append("-byte frame limit");
    text
}

/// Measures one candidate.
fn fits<F: Fn(&SessionSnapshot) -> Result<usize, String>>(
    measure: &F,
    snapshot: &SessionSnapshot,
    max_frame_bytes: usize,
) -> (result: Result<bool, String>)
    requires
        forall|probe: &SessionSnapshot| #[trigger] measure.requires((probe,)),
    ensures
        match result {
            Ok(true) => measured_within(*measure, *snapshot, max_frame_bytes),
            Ok(false) => measured_over(*measure, *snapshot, max_frame_bytes),
            Err(text) => exists|error: String|
                #[trigger] measure.ensures((snapshot,), Err(error)) && text@
                    == "snapshot serialization failed: "@ + error@,
        },
{
    match measure(snapshot) {
        Ok(size) => {
            assert(measure.ensures((snapshot,), Ok(size)));
            Ok(size <= max_frame_bytes)
        },
        Err(error) => {
            assert(measure.ensures((snapshot,), Err(error)));
            let mut text = "snapshot serialization failed: ".to_owned();
            text.append(error.as_str());
            Err(text)
        },
    }
}

/// Cuts a snapshot down until its frame is within the limit.
pub fn fit_snapshot_to_frame<F: Fn(&SessionSnapshot) -> Result<usize, String>>(
    snapshot: SessionSnapshot,
    max_frame_bytes: usize,
    measure: F,
) -> (result: Result<SessionSnapshot, String>)
    requires
        forall|probe: &SessionSnapshot| #[trigger] measure.requires((probe,)),
    ensures
        fitted(measure, snapshot, max_frame_bytes, result),
{
    let ghost whole = snapshot;
    let mut cut = snapshot;
    match fits(&measure, &cut, max_frame_bytes) {
        Err(text) => return Err(text),
        Ok(true) => return Ok(cut),
        Ok(false) => {},
    }
    cut.history_truncated = true;
    let calls = strip_outputs(&cut.tool_calls);
    cut.tool_calls = calls;
    proof {
        lemma_nothing_dropped(cut.tool_calls@);
        assert(whole.transcript@.skip(0) =~= whole.transcript@);
        assert(cut_down(whole, cut, 0, 0));
    }
    match fits(&measure, &cut, max_frame_bytes) {
        Err(text) => return Err(text),
        Ok(true) => return Ok(cut),
        Ok(false) => {},
    }
    assert(cut_measured_over(measure, whole, 0, 0, max_frame_bytes));
    let transcript = cut.transcript;
    cut.transcript = Vec::new();
    let mut low: usize = 0;
    let mut high: usize = transcript.len();
    while low < high
        invariant
            forall|probe: &SessionSnapshot| #[trigger] measure.requires((probe,)),
            whole == snapshot,
            low <= high <= transcript@.len(),
            transcript@ == whole.transcript@,
            cut_down(
                whole,
                SessionSnapshot { transcript, ..cut },
                0,
                0,
            ),
            low > 0 ==> cut_measured_over(measure, whole, low - 1, 0, max_frame_bytes),
            high < transcript@.len() ==> cut_measured_within(
                measure,
                whole,
                high as int,
                0,
                max_frame_bytes,
            ),
        decreases high - low,
    {
        let middle: usize = low + (high - low) / 2;
        cut.transcript = entries_from(&transcript, middle);
        assert(cut_down(whole, cut, middle as int, 0));
        match fits(&measure, &cut, max_frame_bytes) {
            Err(text) => return Err(text),
            Ok(true) => {
                high = middle;
            },
            Ok(false) => {
                low = middle + 1;
            },
        }
    }
    cut.transcript = entries_from(&transcript, low);
    let ghost entries = low as int;
    assert(cut_down(whole, cut, entries, 0));
    assert(entries_settled(measure, whole, entries, max_frame_bytes));
    match fits(&measure, &cut, max_frame_bytes) {
        Err(text) => return Err(text),
        Ok(true) => return Ok(cut),
        Ok(false) => {},
    }
    assert(cut_measured_over(measure, whole, entries, 0, max_frame_bytes));
    let tool_calls = cut.tool_calls;
    cut.tool_calls = Vec::new();
    proof {
        lemma_stripping_keeps_count(whole.tool_calls@);
        lemma_nothing_dropped(stripped_calls(whole.tool_calls@));
    }
    let count: usize = count_terminal(&tool_calls);
    let mut low: usize = 0;
    let mut high: usize = count;
    while low < high
        invariant
            forall|probe: &SessionSnapshot| #[trigger] measure.requires((probe,)),
            whole == snapshot,
            low <= high <= count,
            count == terminal_count(whole.tool_calls@),
            tool_calls@ == stripped_calls(whole.tool_calls@),
            cut_down(
                whole,
                SessionSnapshot { tool_calls, ..cut },
                entries,
                0,
            ),
            low > 0 ==> cut_measured_over(measure, whole, entries, low - 1, max_frame_bytes),
            high < count ==> cut_measured_within(
                measure,
                whole,
                entries,
                high as int,
                max_frame_bytes,
            ),
        decreases high - low,
    {
        let middle: usize = low + (high - low) / 2;
        cut.tool_calls = tool_calls_without_oldest_terminal(&tool_calls, middle);
        assert(cut_down(whole, cut, entries, middle as int));
        match fits(&measure, &cut, max_frame_bytes) {
            Err(text) => return Err(text),
            Ok(true) => {
                high = middle;
            },
            Ok(false) => {
                low = middle + 1;
            },
        }
    }
    cut.tool_calls = tool_calls_without_oldest_terminal(&tool_calls, low);
    let ghost dropped = low as int;
    assert(cut_down(whole, cut, entries, dropped));
    assert(calls_settled(measure, whole, entries, dropped, max_frame_bytes));
    match fits(&measure, &cut, max_frame_bytes) {
        Err(text) => Err(text),
        Ok(true) => Ok(cut),
        Ok(false) => {
            assert(cut_measured_over(measure, whole, entries, dropped, max_frame_bytes));
            Err(snapshot_limit_message(max_frame_bytes))
        },
    }
}

proof fn lemma_nothing_dropped(calls: Seq<ToolCallState>)
    ensures
        without_oldest_terminal(calls, 0) == calls,
    decreases calls.len(),
{
    if calls.len() > 0 {
        lemma_nothing_dropped(calls.drop_last());
        assert(calls.drop_last().push(calls.last()) =~= calls);
    }
}

proof fn lemma_stripping_keeps_count(calls: Seq<ToolCallState>)
    ensures
        terminal_count(stripped_calls(calls)) == terminal_count(calls),
    decreases calls.len(),
{
    if calls.len() > 0 {
        lemma_stripping_keeps_count(calls.drop_last());
        assert(stripped_calls(calls).drop_last() =~= stripped_calls(calls.drop_last()));
    }
}

/// A call that is not over is never given up for room: it stands in every
/// snapshot cut down from one that holds it.
pub proof fn law_unfinished_calls_survive_fitting(
    whole: SessionSnapshot,
    cut: SessionSnapshot,
    entries_dropped: int,
    calls_dropped: int,
    at: int,
)
    requires
        cut_down(whole, cut, entries_dropped, calls_dropped),
        0 <= at < whole.tool_calls@.len(),
        !whole.tool_calls@[at].status.terminal(),
    ensures
        cut.tool_calls@.contains(whole.tool_calls@[at]),
{
    let stripped = stripped_calls(whole.tool_calls@);
    assert(stripped[at] == whole.tool_calls@[at]);
    lemma_unfinished_kept(stripped, calls_dropped as nat, at);
}

proof fn lemma_unfinished_kept(calls: Seq<ToolCallState>, drop_count: nat, at: int)
    requires
        0 <= at < calls.len(),
        !calls[at].status.terminal(),
    ensures
        without_oldest_terminal(calls, drop_count).contains(calls[at]),
    decreases calls.len(),
{
    let kept = without_oldest_terminal(calls.drop_last(), drop_count);
    if at == calls.len() - 1 {
        assert(kept.push(calls.last())[kept.len() as int] == calls[at]);
    } else {
        lemma_unfinished_kept(calls.drop_last(), drop_count, at);
        let i = kept.index_of(calls[at]);
        assert(kept.push(calls.last())[i] == calls[at]);
    }
}

/// A page of a session listing, before it is known how many rows of it fit.
#[derive(Debug, PartialEq, Eq)]
pub struct ListPage {
    pub request_id: String,
    pub workspace: Option<SessionWorkspace>,
    pub sessions: Vec<SessionListEntry>,
    /// How many rows of the listing are still to be sent, these among them.
    pub remaining: usize,
    /// What the client asks with for the rows behind this page.
    pub cursor: String,
    pub incomplete: bool,
}

impl ListPage {
    /// Whether a message is this page with its first rows, as many as given. It
    /// carries the cursor where rows are left.
    pub open spec fn sent_as(self, message: ServerMessage, rows: int) -> bool {
        &&& message matches ServerMessage::SessionList {
            request_id,
            workspace,
            sessions,
            next_cursor,
            incomplete,
        }
        &&& request_id == self.request_id
        &&& workspace == self.workspace
        &&& 0 <= rows <= self.sessions@.len()
        &&& sessions@ == self.sessions@.take(rows)
        &&& next_cursor == if rows < self.remaining {
            Some(self.cursor)
        } else {
            None
        }
        &&& incomplete == self.incomplete
    }

    fn with_rows(&self, rows: usize) -> (message: ServerMessage)
        requires
            rows <= self.sessions@.len(),
        ensures
            self.sent_as(message, rows as int),
    {
        let mut sessions: Vec<SessionListEntry> = Vec::new();
        let mut i: usize = 0;
        while i < rows
            invariant
                i <= rows <= self.sessions@.len(),
                sessions@ =~= self.sessions@.take(i as int),
            decreases rows - i,
        {
            sessions.push(self.sessions[i].clone());
            i = i + 1;
        }
        let workspace = match &self.workspace {
            Some(workspace) => Some(workspace.clone()),
            None => None,
        };
        ServerMessage::SessionList {
            request_id: self.request_id.clone(),
            workspace,
            sessions,
            next_cursor: if rows < self.remaining {
                Some(self.cursor.clone())
            } else {
                None
            },
            incomplete: self.incomplete,
        }
    }

    /// Whether the page with so many rows was measured over the frame.
    pub open spec fn over<F: Fn(&ServerMessage) -> Result<usize, String>>(
        self,
        measure: F,
        rows: int,
        max_frame_bytes: usize,
    ) -> bool {
        exists|message: ServerMessage, size: usize|
            #![trigger measure.ensures((&message,), Ok(size))]
            self.sent_as(message, rows) && measure.ensures((&message,), Ok(size)) && size
                > max_frame_bytes
    }

    /// Whether measuring the page with some number of rows failed.
    pub open spec fn failed<F: Fn(&ServerMessage) -> Result<usize, String>>(
        self,
        measure: F,
        text: Seq<char>,
    ) -> bool {
        exists|message: ServerMessage, error: String, rows: int|
            #![trigger measure.ensures((&message,), Err(error)), self.sent_as(message, rows)]
            self.sent_as(message, rows) && measure.ensures((&message,), Err(error)) && text
                == "session list serialization failed: "@ + error@
    }

    /// What fitting the page comes to: as many of its rows as go into a frame,
    /// one at least where it has any.
    pub open spec fn fitted<F: Fn(&ServerMessage) -> Result<usize, String>>(
        self,
        measure: F,
        max_frame_bytes: usize,
        result: Result<(ServerMessage, usize), String>,
    ) -> bool {
        match result {
            Ok((message, sent)) => {
                &&& self.sent_as(message, sent as int)
                &&& exists|size: usize| #[trigger]
                    measure.ensures((&message,), Ok(size)) && size <= max_frame_bytes
                &&& forall|rows: int|
                    sent < rows <= self.sessions@.len() ==> #[trigger] self.over(
                        measure,
                        rows,
                        max_frame_bytes,
                    )
                &&& sent == 0 ==> self.sessions@.len() == 0
            },
            Err(text) => {
                ||| self.failed(measure, text@)
                ||| {
                    &&& text@ == "one session entry exceeds the configured "@ + decimal(
                        max_frame_bytes as nat,
                    ) + "-byte frame limit"@
                    &&& forall|rows: int|
                        1 <= rows <= self.sessions@.len() ==> #[trigger] self.over(
                            measure,
                            rows,
                            max_frame_bytes,
                        )
                    &&& self.sessions@.len() == 0 ==> self.over(measure, 0, max_frame_bytes)
                }
            },
        }
    }
}

/// Sends as many rows of a page as fit into one frame.
pub fn fit_session_list_to_frame<F: Fn(&ServerMessage) -> Result<usize, String>>(
    page: ListPage,
    max_frame_bytes: usize,
    measure: F,
) -> (result: Result<(ServerMessage, usize), String>)
    requires
        forall|message: &ServerMessage| #[trigger] measure.requires((message,)),
    ensures
        page.fitted(measure, max_frame_bytes, result),
{
    let mut rows: usize = page.sessions.len();
    loop
        invariant
            rows <= page.sessions@.len(),
            rows == 0 ==> page.sessions@.len() == 0,
            forall|message: &ServerMessage| #[trigger] measure.requires((message,)),
            forall|more: int|
                rows < more <= page.sessions@.len() ==> #[trigger] page.over(
                    measure,
                    more,
                    max_frame_bytes,
                ),
        decreases rows,
    {
        let message = page.with_rows(rows);
        match measure(&message) {
            Err(error) => {
                assert(page.sent_as(message, rows as int) && measure.ensures(
                    (&message,),
                    Err(error),
                ));
                let mut text = "session list serialization failed: ".to_owned();
                text.append(error.as_str());
                return Err(text);
            },
            Ok(size) => {
                assert(measure.ensures((&message,), Ok(size)));
                if size <= max_frame_bytes {
                    return Ok((message, rows));
                }
            },
        }
        assert(page.over(measure, rows as int, max_frame_bytes));
        if rows <= 1 {
            let mut text = "one session entry exceeds the configured ".to_owned();
            let bytes = decimal_string(max_frame_bytes as u64);
            text.append(bytes.as_str());
            text.append("-byte frame limit");
            return Err(text);
        }
        rows = rows - 1;
    }
}

} // verus!
