//! Windows: which of them count as application windows, and which one stands for its
//! process.

use crate::text::{chars_of, same_text, starts_with};
use std::collections::HashMap;
use vstd::prelude::*;

verus! {

/// A visible, titled window and the process that owns it.
#[derive(Debug)]
pub struct WindowInfo {
    pub pid: u32,
    pub title: String,
}

/// What a `WindowInfo` holds, as plain values.
pub struct WindowRecord {
    pub pid: u32,
    pub title: Seq<char>,
}

impl View for WindowInfo {
    type V = WindowRecord;

    open spec fn view(&self) -> WindowRecord {
        WindowRecord { pid: self.pid, title: self.title@ }
    }
}

impl Clone for WindowInfo {
    fn clone(&self) -> (copy: Self)
        ensures
            copy == *self,
    {
        WindowInfo { pid: self.pid, title: self.title.clone() }
    }
}

/// A top-level window as the system reports it.
#[derive(Debug)]
pub struct RawWindow {
    pub visible: bool,
    pub title: String,
    pub pid: u32,
}

/// What a `RawWindow` holds, as plain values.
pub struct RawRecord {
    pub visible: bool,
    pub title: Seq<char>,
    pub pid: u32,
}

impl View for RawWindow {
    type V = RawRecord;

    open spec fn view(&self) -> RawRecord {
        RawRecord { visible: self.visible, title: self.title@, pid: self.pid }
    }
}

/// The records of a list of windows.
pub open spec fn records(ws: Seq<WindowInfo>) -> Seq<WindowRecord> {
    ws.map_values(|w: WindowInfo| w@)
}

/// The records of a list of reported windows.
pub open spec fn raw_records(ws: Seq<RawWindow>) -> Seq<RawRecord> {
    ws.map_values(|w: RawWindow| w@)
}

/// Titles that never belong to an application: none at all, the desktop, and the
/// surfaces of the input method.
pub open spec fn is_skipped_title(title: Seq<char>) -> bool {
    ||| title.len() == 0
    ||| title == "Program Manager"@
    ||| title == "Windows Input Experience"@
    ||| "MSCTFIME"@.is_prefix_of(title)
}

/// A window is an application window when it is visible, its title is not skipped and
/// its owning process is known.
pub open spec fn is_application_window(w: RawRecord) -> bool {
    w.visible && !is_skipped_title(w.title) && w.pid != 0
}

/// The application windows among `raw`, in the order in which they were reported.
pub open spec fn application_windows(raw: Seq<RawRecord>) -> Seq<WindowRecord>
    decreases raw.len(),
{
    if raw.len() == 0 {
        Seq::empty()
    } else if is_application_window(raw.last()) {
        application_windows(raw.drop_last()).push(
            WindowRecord { pid: raw.last().pid, title: raw.last().title },
        )
    } else {
        application_windows(raw.drop_last())
    }
}

/// The length by which titles are compared: that of the title in UTF-8.
pub open spec fn title_len(title: Seq<char>) -> nat {
    vstd::utf8::encode_utf8(title).len()
}

/// Some window in `ws` belongs to process `pid`.
pub open spec fn has_pid(ws: Seq<WindowRecord>, pid: u32) -> bool {
    exists|i: int| 0 <= i < ws.len() && #[trigger] ws[i].pid == pid
}

/// No two windows in `ws` belong to the same process.
pub open spec fn distinct_pids(ws: Seq<WindowRecord>) -> bool {
    forall|i: int, j: int| 0 <= i < j < ws.len() ==> #[trigger] ws[i].pid != #[trigger] ws[j].pid
}

/// Where the window of process `pid` stands in `ws`.
pub open spec fn slot_of(ws: Seq<WindowRecord>, pid: u32) -> int {
    choose|i: int| 0 <= i < ws.len() && #[trigger] ws[i].pid == pid
}

/// Takes one more window into a list that holds one window for each process: a window
/// of a new process goes to the end, and one of a known process takes that process's
/// place if its title is strictly longer.
pub open spec fn upsert(acc: Seq<WindowRecord>, w: WindowRecord) -> Seq<WindowRecord> {
    if has_pid(acc, w.pid) {
        let i = slot_of(acc, w.pid);
        if title_len(w.title) > title_len(acc[i].title) {
            acc.update(i, w)
        } else {
            acc
        }
    } else {
        acc.push(w)
    }
}

/// One window for each process of `ws`: the one with the longest title, the earliest of
/// them where several are as long. Processes stand in the order in which they first
/// appear.
pub open spec fn dedup(ws: Seq<WindowRecord>) -> Seq<WindowRecord>
    decreases ws.len(),
{
    if ws.len() == 0 {
        Seq::empty()
    } else {
        upsert(dedup(ws.drop_last()), ws.last())
    }
}

/// Window `i` is the one that stands for its process: every earlier window of that
/// process has a shorter title, and no later one has a longer title.
pub open spec fn is_kept(ws: Seq<WindowRecord>, i: int) -> bool {
    &&& 0 <= i < ws.len()
    &&& forall|j: int|
        0 <= j < i && #[trigger] ws[j].pid == ws[i].pid ==> title_len(ws[j].title) < title_len(
            ws[i].title,
        )
    &&& forall|j: int|
        i < j < ws.len() && #[trigger] ws[j].pid == ws[i].pid ==> title_len(ws[j].title)
            <= title_len(ws[i].title)
}

/// The processes of `ws`, each once, in the order in which they first appear.
pub open spec fn processes_in_order(ws: Seq<WindowRecord>) -> Seq<u32>
    decreases ws.len(),
{
    if ws.len() == 0 {
        Seq::empty()
    } else if processes_in_order(ws.drop_last()).contains(ws.last().pid) {
        processes_in_order(ws.drop_last())
    } else {
        processes_in_order(ws.drop_last()).push(ws.last().pid)
    }
}

/// The processes of a list of windows, in the order of the list.
pub open spec fn pids_of(ws: Seq<WindowRecord>) -> Seq<u32> {
    Seq::new(ws.len(), |i: int| ws[i].pid)
}

/// Whether a title is one that never belongs to an application.
pub fn skips_title(title: &str) -> (skipped: bool)
    ensures
        skipped == is_skipped_title(title@),
{
    let text = chars_of(title);
    if text.len() == 0 {
        return true;
    }
    let desktop = chars_of("Program Manager");
    let input_experience = chars_of("Windows Input Experience");
    let input_method = chars_of("MSCTFIME");
    same_text(text.as_slice(), desktop.as_slice()) || same_text(
        text.as_slice(),
        input_experience.as_slice(),
    ) || starts_with(text.as_slice(), input_method.as_slice())
}

/// Whether a reported window is an application window.
pub fn accept_window(visible: bool, title: &str, pid: u32) -> (accepted: bool)
    ensures
        accepted == is_application_window(RawRecord { visible, title: title@, pid }),
{
    visible && pid != 0 && !skips_title(title)
}

/// The application windows among the reported ones, in the order in which they were
/// reported.
pub fn enumerate_windows(raw: &[RawWindow]) -> (windows: Vec<WindowInfo>)
    ensures
        records(windows@) == application_windows(raw_records(raw@)),
        forall|k: int|
            0 <= k < windows.len() ==> (#[trigger] records(windows@)[k]).pid != 0 && !is_skipped_title(
                records(windows@)[k].title,
            ),
{
    let mut windows: Vec<WindowInfo> = Vec::new();
    let mut n: usize = 0;
    while n < raw.len()
        invariant
            n <= raw.len(),
            records(windows@) == application_windows(raw_records(raw@).take(n as int)),
        decreases raw.len() - n,
    {
        let w = &raw[n];
        proof {
            let seen = raw_records(raw@).take(n + 1);
            assert(seen.drop_last() == raw_records(raw@).take(n as int));
            assert(seen.last() == w@);
        }
        if accept_window(w.visible, w.title.as_str(), w.pid) {
            let ghost before = windows@;
            windows.push(WindowInfo { pid: w.pid, title: w.title.clone() });
            assert(records(windows@) == records(before).push(
                WindowRecord { pid: w.pid, title: w.title@ },
            ));
        }
        n += 1;
    }
    proof {
        assert(raw_records(raw@).take(raw.len() as int) == raw_records(raw@));
        lemma_application_windows_are_accepted(raw_records(raw@));
        assert forall|k: int| 0 <= k < windows.len() implies (#[trigger] records(windows@)[k]).pid != 0
            && !is_skipped_title(records(windows@)[k].title) by {
            assert(is_accepted_from(raw_records(raw@), records(windows@)[k]));
        }
    }
    windows
}

/// Keeps one window for each process: the one with the longest title, the earliest of
/// them where several are as long. Processes stand in the order in which they first
/// appear.
pub fn dedup_by_process(windows: &[WindowInfo]) -> (kept: Vec<WindowInfo>)
    ensures
        records(kept@) == dedup(records(windows@)),
        distinct_pids(records(kept@)),
        pids_of(records(kept@)) == processes_in_order(records(windows@)),
        forall|i: int|
            0 <= i < windows.len() ==> has_pid(records(kept@), #[trigger] records(windows@)[i].pid),
        forall|k: int|
            0 <= k < kept.len() ==> exists|i: int|
                is_kept(records(windows@), i) && records(windows@)[i] == #[trigger] records(
                    kept@,
                )[k],
{
    broadcast use vstd::std_specs::hash::group_hash_axioms;

    let mut kept: Vec<WindowInfo> = Vec::new();
    let mut slots: HashMap<u32, usize> = HashMap::new();
    let mut n: usize = 0;
    while n < windows.len()
        invariant
            n <= windows.len(),
            records(kept@) == dedup(records(windows@).take(n as int)),
            distinct_pids(records(kept@)),
            forall|pid: u32| slots@.contains_key(pid) <==> has_pid(records(kept@), pid),
            forall|pid: u32| #[trigger]
                slots@.contains_key(pid) ==> slots@[pid] < kept.len()
                    && kept[slots@[pid] as int].pid == pid,
        decreases windows.len() - n,
    {
        let w = &windows[n];
        let ghost before = records(kept@);
        proof {
            let seen = records(windows@).take(n + 1);
            assert(seen.drop_last() == records(windows@).take(n as int));
            assert(seen.last() == w@);
        }
        match slots.get(&w.pid) {
            Some(slot) => {
                let i: usize = *slot;
                assert(before[i as int].pid == w.pid);
                assert(has_pid(before, w.pid));
                assert(slot_of(before, w.pid) == i);
                if w.title.as_str().as_bytes().len() > kept[i].title.as_str().as_bytes().len() {
                    kept.set(i, w.clone());
                    assert(records(kept@) == before.update(i as int, w@));
                    assert forall|pid: u32| has_pid(before, pid) <==> has_pid(
                        records(kept@),
                        pid,
                    ) by {
                        if has_pid(before, pid) {
                            let j = slot_of(before, pid);
                            assert(records(kept@)[j].pid == pid);
                        }
                        if has_pid(records(kept@), pid) {
                            let j = slot_of(records(kept@), pid);
                            assert(before[j].pid == pid);
                        }
                    }
                }
            },
            None => {
                assert(!has_pid(before, w.pid));
                slots.insert(w.pid, kept.len());
                kept.push(w.clone());
                assert(records(kept@) == before.push(w@));
                assert forall|pid: u32| slots@.contains_key(pid) <==> has_pid(
                    records(kept@),
                    pid,
                ) by {
                    if has_pid(before, pid) {
                        let j = slot_of(before, pid);
                        assert(records(kept@)[j].pid == pid);
                    }
                    if pid == w.pid {
                        assert(records(kept@)[kept.len() - 1].pid == pid);
                    }
                    if has_pid(records(kept@), pid) && pid != w.pid {
                        let j = slot_of(records(kept@), pid);
                        assert(before[j].pid == pid);
                    }
                }
            },
        }
        n += 1;
    }
    proof {
        assert(records(windows@).take(windows.len() as int) == records(windows@));
        lemma_dedup_keeps_longest(records(windows@));
        lemma_dedup_order(records(windows@));
    }
    kept
}

/// `w` stands for a window of `raw` that is an application window.
pub open spec fn is_accepted_from(raw: Seq<RawRecord>, w: WindowRecord) -> bool {
    exists|i: int|
        0 <= i < raw.len() && is_application_window(#[trigger] raw[i]) && raw[i].pid == w.pid
            && raw[i].title == w.title
}

/// Every application window was reported as a visible window with a title that is not
/// skipped and with a known owner.
pub proof fn lemma_application_windows_are_accepted(raw: Seq<RawRecord>)
    ensures
        forall|k: int|
            0 <= k < application_windows(raw).len() ==> is_accepted_from(
                raw,
                #[trigger] application_windows(raw)[k],
            ),
    decreases raw.len(),
{
    if raw.len() > 0 {
        let earlier = raw.drop_last();
        let out = application_windows(raw);
        lemma_application_windows_are_accepted(earlier);
        assert forall|k: int| 0 <= k < out.len() implies is_accepted_from(raw, #[trigger] out[k]) by {
            if k < application_windows(earlier).len() {
                let w = application_windows(earlier)[k];
                assert(is_accepted_from(earlier, w));
                let i = choose|i: int|
                    0 <= i < earlier.len() && is_application_window(#[trigger] earlier[i])
                        && earlier[i].pid == w.pid && earlier[i].title == w.title;
                assert(raw[i] == earlier[i]);
            } else {
                assert(is_application_window(raw[raw.len() - 1]));
            }
        }
    }
}

/// Of the windows of one process exactly one is kept, and it is the one with the
/// longest title, the earliest of them where several are as long.
pub proof fn lemma_dedup_keeps_longest(ws: Seq<WindowRecord>)
    ensures
        distinct_pids(dedup(ws)),
        forall|i: int| 0 <= i < ws.len() ==> has_pid(dedup(ws), #[trigger] ws[i].pid),
        forall|k: int|
            0 <= k < dedup(ws).len() ==> exists|i: int|
                is_kept(ws, i) && ws[i] == #[trigger] dedup(ws)[k],
    decreases ws.len(),
{
    if ws.len() > 0 {
        let earlier = ws.drop_last();
        let w = ws.last();
        let acc = dedup(earlier);
        let out = dedup(ws);
        lemma_dedup_keeps_longest(earlier);
        assert(out == upsert(acc, w));
        let replaced = has_pid(acc, w.pid) && title_len(w.title) > title_len(
            acc[slot_of(acc, w.pid)].title,
        );
        let slot = if has_pid(acc, w.pid) {
            slot_of(acc, w.pid)
        } else {
            acc.len() as int
        };
        assert(out[slot].pid == w.pid);
        assert forall|i: int| 0 <= i < ws.len() implies has_pid(out, #[trigger] ws[i].pid) by {
            if i < earlier.len() {
                assert(earlier[i] == ws[i]);
                let k = slot_of(acc, earlier[i].pid);
                assert(out[k].pid == ws[i].pid);
            }
        }
        assert forall|k: int| 0 <= k < out.len() implies exists|i: int|
            is_kept(ws, i) && ws[i] == #[trigger] out[k] by {
            if k == slot && (replaced || !has_pid(acc, w.pid)) {
                let n = ws.len() - 1;
                if replaced {
                    let i = choose|i: int| is_kept(earlier, i) && earlier[i] == acc[k];
                    assert forall|j: int|
                        0 <= j < n && #[trigger] ws[j].pid == ws[n].pid implies title_len(
                        ws[j].title,
                    ) < title_len(ws[n].title) by {
                        assert(earlier[j].pid == earlier[i].pid);
                    }
                } else {
                    assert forall|j: int|
                        0 <= j < n && #[trigger] ws[j].pid == ws[n].pid implies title_len(
                        ws[j].title,
                    ) < title_len(ws[n].title) by {
                        assert(has_pid(acc, earlier[j].pid));
                    }
                }
                assert(is_kept(ws, n) && ws[n] == out[k]);
            } else {
                assert(out[k] == acc[k]);
                let i = choose|i: int| is_kept(earlier, i) && earlier[i] == acc[k];
                assert forall|j: int|
                    i < j < ws.len() && #[trigger] ws[j].pid == ws[i].pid implies title_len(
                    ws[j].title,
                ) <= title_len(ws[i].title) by {
                    if j < earlier.len() {
                        assert(earlier[j].pid == earlier[i].pid);
                    }
                }
                assert forall|j: int|
                    0 <= j < i && #[trigger] ws[j].pid == ws[i].pid implies title_len(
                    ws[j].title,
                ) < title_len(ws[i].title) by {
                    assert(earlier[j].pid == earlier[i].pid);
                }
                assert(is_kept(ws, i) && ws[i] == out[k]);
            }
        }
    }
}

/// The kept windows stand in the order in which their processes first appear.
pub proof fn lemma_dedup_order(ws: Seq<WindowRecord>)
    ensures
        pids_of(dedup(ws)) == processes_in_order(ws),
    decreases ws.len(),
{
    if ws.len() > 0 {
        let acc = dedup(ws.drop_last());
        let seen = processes_in_order(ws.drop_last());
        let w = ws.last();
        lemma_dedup_order(ws.drop_last());
        if has_pid(acc, w.pid) {
            let i = slot_of(acc, w.pid);
            assert(pids_of(acc)[i] == w.pid);
            assert(pids_of(upsert(acc, w)) == pids_of(acc));
        } else {
            if seen.contains(w.pid) {
                let i = choose|i: int| 0 <= i < seen.len() && seen[i] == w.pid;
                assert(pids_of(acc)[i] == w.pid);
                assert(acc[i].pid == w.pid);
            }
            assert(pids_of(acc.push(w)) == pids_of(acc).push(w.pid));
        }
    } else {
        assert(pids_of(dedup(ws)) == processes_in_order(ws));
    }
}

} // verus!
