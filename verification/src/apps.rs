//! Applications: the windows that stand for their processes, matched against the process
//! table, without the shell's own surfaces, each with its icon, ordered by title.

use crate::icon::{encode_icon, icon_payload};
use crate::order::{
    app_records, is_sorted, lemma_sorted_by_title_is_sorted, lemma_sorted_by_title_members,
    lemma_sorted_by_title_one_per_process, one_per_process, sort_by_title, sorted_by_title,
    AppRecord, ProcessInfo,
};
use crate::text::{chars_of, contains, occurs_at, occurs_in};
use crate::window::{
    dedup, dedup_by_process, distinct_pids, is_kept, lemma_dedup_keeps_longest, records,
    WindowInfo, WindowRecord,
};
use vstd::prelude::*;

verus! {

/// A process as the process table describes it.
#[derive(Debug)]
pub struct ProcessDescriptor {
    pub pid: u32,
    pub name: String,
    pub exe_path: Option<String>,
}

/// What a `ProcessDescriptor` holds, as plain values.
pub struct ProcessRecord {
    pub pid: u32,
    pub name: Seq<char>,
    pub exe_path: Option<Seq<char>>,
}

/// A process that has an application window and is not excluded; its icon is yet to be
/// drawn.
#[derive(Debug)]
pub struct Candidate {
    pub pid: u32,
    pub name: String,
    pub title: String,
    pub exe_path: Option<String>,
}

/// What a `Candidate` holds, as plain values.
pub struct CandidateRecord {
    pub pid: u32,
    pub name: Seq<char>,
    pub title: Seq<char>,
    pub exe_path: Option<Seq<char>>,
}

/// The characters of a text that may be absent.
pub open spec fn opt_text(s: Option<String>) -> Option<Seq<char>> {
    match s {
        Some(t) => Some(t@),
        None => None,
    }
}

impl View for ProcessDescriptor {
    type V = ProcessRecord;

    open spec fn view(&self) -> ProcessRecord {
        ProcessRecord { pid: self.pid, name: self.name@, exe_path: opt_text(self.exe_path) }
    }
}

impl View for Candidate {
    type V = CandidateRecord;

    open spec fn view(&self) -> CandidateRecord {
        CandidateRecord {
            pid: self.pid,
            name: self.name@,
            title: self.title@,
            exe_path: opt_text(self.exe_path),
        }
    }
}

/// The records of a process table.
pub open spec fn process_records(ps: Seq<ProcessDescriptor>) -> Seq<ProcessRecord> {
    ps.map_values(|p: ProcessDescriptor| p@)
}

/// The records of a list of candidates.
pub open spec fn candidate_records(cs: Seq<Candidate>) -> Seq<CandidateRecord> {
    cs.map_values(|c: Candidate| c@)
}

/// The names of the shell's own surfaces and of this program's helper. A process whose
/// name holds one of them is no application.
pub open spec fn deny_list() -> Seq<Seq<char>> {
    seq![
        "explorer"@,
        "TextInputHost"@,
        "SearchHost"@,
        "ShellExperienceHost"@,
        "StartMenuExperienceHost"@,
        "autoshutdownapp"@,
    ]
}

/// A process name is excluded when a member of the deny-list is part of it.
pub open spec fn is_excluded(name: Seq<char>) -> bool {
    exists|i: int| 0 <= i < deny_list().len() && occurs_in(#[trigger] deny_list()[i], name)
}

/// Entry `i` of the table is the first one for process `pid`.
pub open spec fn is_first_process(procs: Seq<ProcessRecord>, pid: u32, i: int) -> bool {
    &&& 0 <= i < procs.len()
    &&& procs[i].pid == pid
    &&& forall|j: int| 0 <= j < i ==> (#[trigger] procs[j]).pid != pid
}

/// The first entry of the table for process `pid`, if there is one.
pub open spec fn process_of(procs: Seq<ProcessRecord>, pid: u32) -> Option<ProcessRecord> {
    if exists|i: int| is_first_process(procs, pid, i) {
        Some(procs[choose|i: int| is_first_process(procs, pid, i)])
    } else {
        None
    }
}

/// What becomes of a window once the process table is consulted: nothing where its
/// process is gone or excluded, else a candidate under the process's name.
pub open spec fn candidate_for(w: WindowRecord, procs: Seq<ProcessRecord>) -> Option<
    CandidateRecord,
> {
    match process_of(procs, w.pid) {
        Some(p) => if is_excluded(p.name) {
            None
        } else {
            Some(CandidateRecord { pid: w.pid, name: p.name, title: w.title, exe_path: p.exe_path })
        },
        None => None,
    }
}

/// The candidates that the windows `ws` give, in the order of `ws`.
pub open spec fn candidates(ws: Seq<WindowRecord>, procs: Seq<ProcessRecord>) -> Seq<
    CandidateRecord,
>
    decreases ws.len(),
{
    if ws.len() == 0 {
        Seq::empty()
    } else {
        match candidate_for(ws.last(), procs) {
            Some(c) => candidates(ws.drop_last(), procs).push(c),
            None => candidates(ws.drop_last(), procs),
        }
    }
}

/// A member of the deny-list is itself excluded.
pub proof fn lemma_members_excluded(i: int)
    requires
        0 <= i < deny_list().len(),
    ensures
        is_excluded(deny_list()[i]),
{
    let member = deny_list()[i];
    assert(member.subrange(0, member.len() as int) == member);
    assert(occurs_at(member, member, 0));
}

/// Whether a process name holds a member of the deny-list.
pub fn is_excluded_name(name: &str) -> (excluded: bool)
    ensures
        excluded == is_excluded(name@),
{
    let text = chars_of(name);
    let shell = chars_of("explorer");
    let text_input = chars_of("TextInputHost");
    let search = chars_of("SearchHost");
    let shell_experience = chars_of("ShellExperienceHost");
    let start_menu = chars_of("StartMenuExperienceHost");
    let helper = chars_of("autoshutdownapp");
    let excluded = contains(text.as_slice(), shell.as_slice()) || contains(
        text.as_slice(),
        text_input.as_slice(),
    ) || contains(text.as_slice(), search.as_slice()) || contains(
        text.as_slice(),
        shell_experience.as_slice(),
    ) || contains(text.as_slice(), start_menu.as_slice()) || contains(
        text.as_slice(),
        helper.as_slice(),
    );
    proof {
        let list = deny_list();
        assert(list[0] == shell@ && list[1] == text_input@ && list[2] == search@ && list[3]
            == shell_experience@ && list[4] == start_menu@ && list[5] == helper@);
    }
    excluded
}

/// The place of the first entry for process `pid` in the table.
pub fn find_process(processes: &[ProcessDescriptor], pid: u32) -> (found: Option<usize>)
    ensures
        match found {
            Some(i) => is_first_process(process_records(processes@), pid, i as int),
            None => forall|j: int|
                0 <= j < processes.len() ==> (#[trigger] process_records(processes@)[j]).pid != pid,
        },
        found is None <==> process_of(process_records(processes@), pid) is None,
{
    let mut i: usize = 0;
    while i < processes.len()
        invariant
            i <= processes.len(),
            forall|j: int| 0 <= j < i ==> (#[trigger] process_records(processes@)[j]).pid != pid,
        decreases processes.len() - i,
    {
        if processes[i].pid == pid {
            assert(is_first_process(process_records(processes@), pid, i as int));
            return Some(i);
        }
        i += 1;
    }
    None
}

/// A copy of a text that may be absent.
fn copy_opt(s: &Option<String>) -> (copy: Option<String>)
    ensures
        copy == *s,
{
    match s {
        Some(t) => Some(t.clone()),
        None => None,
    }
}

/// The processes to show, before their icons are drawn: one window for each process,
/// looked up in the process table, without those that are gone or excluded.
pub fn select_applications(windows: &[WindowInfo], processes: &[ProcessDescriptor]) -> (selected:
    Vec<Candidate>)
    ensures
        candidate_records(selected@) == candidates(
            dedup(records(windows@)),
            process_records(processes@),
        ),
        forall|k: int|
            0 <= k < selected.len() ==> {
                let c = #[trigger] candidate_records(selected@)[k];
                &&& !is_excluded(c.name)
                &&& process_of(process_records(processes@), c.pid) is Some
                &&& process_of(process_records(processes@), c.pid)->0.name == c.name
                &&& process_of(process_records(processes@), c.pid)->0.exe_path == c.exe_path
            },
{
    let kept = dedup_by_process(windows);
    let mut selected: Vec<Candidate> = Vec::new();
    let mut n: usize = 0;
    while n < kept.len()
        invariant
            n <= kept.len(),
            candidate_records(selected@) == candidates(
                records(kept@).take(n as int),
                process_records(processes@),
            ),
        decreases kept.len() - n,
    {
        let w = &kept[n];
        let ghost procs = process_records(processes@);
        let ghost before = candidate_records(selected@);
        proof {
            let seen = records(kept@).take(n + 1);
            assert(seen.drop_last() == records(kept@).take(n as int));
            assert(seen.last() == w@);
        }
        match find_process(processes, w.pid) {
            Some(i) => {
                let p = &processes[i];
                assert(process_of(procs, w.pid) == Some(procs[i as int])) by {
                    let c = choose|c: int| is_first_process(procs, w.pid, c);
                    assert(c == i);
                }
                if !is_excluded_name(p.name.as_str()) {
                    selected.push(
                        Candidate {
                            pid: w.pid,
                            name: p.name.clone(),
                            title: w.title.clone(),
                            exe_path: copy_opt(&p.exe_path),
                        },
                    );
                    assert(candidate_records(selected@) == before.push(
                        candidate_for(w@, procs)->0,
                    ));
                }
            },
            None => {},
        }
        n += 1;
    }
    proof {
        assert(records(kept@).take(kept.len() as int) == records(kept@));
        lemma_candidates_from_windows(records(kept@), process_records(processes@));
    }
    selected
}

/// The icon of an executable as the system drew it: 32 rows of 32 pixels, each as
/// blue, green, red, alpha.
#[derive(Debug)]
pub struct DrawnIcon {
    pub exe_path: String,
    pub pixels: Vec<u8>,
}

/// What a `DrawnIcon` holds, as plain values.
pub struct DrawnRecord {
    pub exe_path: Seq<char>,
    pub pixels: Seq<u8>,
}

impl View for DrawnIcon {
    type V = DrawnRecord;

    open spec fn view(&self) -> DrawnRecord {
        DrawnRecord { exe_path: self.exe_path@, pixels: self.pixels@ }
    }
}

/// The records of a list of drawn icons.
pub open spec fn drawn_records(icons: Seq<DrawnIcon>) -> Seq<DrawnRecord> {
    icons.map_values(|d: DrawnIcon| d@)
}

/// Icon `i` is the first one drawn for the executable at `path`.
pub open spec fn is_first_drawn(icons: Seq<DrawnRecord>, path: Seq<char>, i: int) -> bool {
    &&& 0 <= i < icons.len()
    &&& icons[i].exe_path == path
    &&& forall|j: int| 0 <= j < i ==> (#[trigger] icons[j]).exe_path != path
}

/// The pixels of the first icon drawn for the executable at `path`, if there is one.
pub open spec fn drawn_for(icons: Seq<DrawnRecord>, path: Seq<char>) -> Option<Seq<u8>> {
    if exists|i: int| is_first_drawn(icons, path, i) {
        Some(icons[choose|i: int| is_first_drawn(icons, path, i)].pixels)
    } else {
        None
    }
}

/// The icon shown for an executable: absent where its path is unknown, where no icon
/// was drawn for it, or where the drawn icon cannot be encoded.
pub open spec fn icon_for(exe_path: Option<Seq<char>>, icons: Seq<DrawnRecord>) -> Option<
    Seq<char>,
> {
    match exe_path {
        Some(path) => match drawn_for(icons, path) {
            Some(pixels) => icon_payload(pixels),
            None => None,
        },
        None => None,
    }
}

/// The application that a candidate becomes once its icon is attached.
pub open spec fn entry_for(c: CandidateRecord, icons: Seq<DrawnRecord>) -> AppRecord {
    AppRecord { pid: c.pid, name: c.name, title: c.title, icon: icon_for(c.exe_path, icons) }
}

/// The applications that the candidates become, in the same order.
pub open spec fn entries(cs: Seq<CandidateRecord>, icons: Seq<DrawnRecord>) -> Seq<AppRecord> {
    Seq::new(cs.len(), |k: int| entry_for(cs[k], icons))
}

/// The list of running applications for the application windows `ws`, the process
/// table `procs` and the drawn icons `icons`.
pub open spec fn running_apps(
    ws: Seq<WindowRecord>,
    procs: Seq<ProcessRecord>,
    icons: Seq<DrawnRecord>,
) -> Seq<AppRecord> {
    sorted_by_title(entries(candidates(dedup(ws), procs), icons))
}

/// Every application has the process and the title of a window that stands for its
/// process among `ws`.
pub open spec fn shows_kept_windows(ws: Seq<WindowRecord>, apps: Seq<AppRecord>) -> bool {
    forall|k: int|
        0 <= k < apps.len() ==> exists|i: int|
            is_kept(ws, i) && ws[i].pid == (#[trigger] apps[k]).pid && ws[i].title == apps[k].title
}

/// No application has a name that holds a member of the deny-list.
pub open spec fn none_excluded(apps: Seq<AppRecord>) -> bool {
    forall|k: int| 0 <= k < apps.len() ==> !is_excluded((#[trigger] apps[k]).name)
}

/// The place of the first icon drawn for the executable at `path`.
pub fn find_drawn(icons: &[DrawnIcon], path: &String) -> (found: Option<usize>)
    ensures
        match found {
            Some(i) => is_first_drawn(drawn_records(icons@), path@, i as int),
            None => forall|j: int|
                0 <= j < icons.len() ==> (#[trigger] drawn_records(icons@)[j]).exe_path != path@,
        },
        found is None <==> drawn_for(drawn_records(icons@), path@) is None,
{
    let mut i: usize = 0;
    while i < icons.len()
        invariant
            i <= icons.len(),
            forall|j: int| 0 <= j < i ==> (#[trigger] drawn_records(icons@)[j]).exe_path != path@,
        decreases icons.len() - i,
    {
        if icons[i].exe_path == *path {
            assert(is_first_drawn(drawn_records(icons@), path@, i as int));
            return Some(i);
        }
        i += 1;
    }
    None
}

/// Attaches to a candidate the icon that was drawn for its executable.
pub fn attach_icon(candidate: &Candidate, icons: &[DrawnIcon]) -> (app: ProcessInfo)
    ensures
        app@ == entry_for(candidate@, drawn_records(icons@)),
{
    let ghost drawn = drawn_records(icons@);
    let icon = match &candidate.exe_path {
        Some(path) => match find_drawn(icons, path) {
            Some(i) => {
                assert(drawn_for(drawn, path@) == Some(drawn[i as int].pixels)) by {
                    let c = choose|c: int| is_first_drawn(drawn, path@, c);
                    assert(c == i);
                }
                encode_icon(icons[i].pixels.as_slice())
            },
            None => None,
        },
        None => None,
    };
    ProcessInfo {
        pid: candidate.pid,
        name: candidate.name.clone(),
        title: candidate.title.clone(),
        icon,
    }
}

/// Every candidate stands for a window of `ws` whose process is in the table and not
/// excluded, and windows of different processes give candidates of different processes.
pub proof fn lemma_candidates_from_windows(ws: Seq<WindowRecord>, procs: Seq<ProcessRecord>)
    ensures
        forall|k: int|
            0 <= k < candidates(ws, procs).len() ==> exists|i: int|
                0 <= i < ws.len() && candidate_for(ws[i], procs) == Some(
                    #[trigger] candidates(ws, procs)[k],
                ),
        distinct_pids(ws) ==> forall|k: int, m: int|
            0 <= k < m < candidates(ws, procs).len() ==> (
            #[trigger] candidates(ws, procs)[k]).pid != (#[trigger] candidates(ws, procs)[m]).pid,
    decreases ws.len(),
{
    if ws.len() > 0 {
        let earlier = ws.drop_last();
        let cs = candidates(ws, procs);
        let before = candidates(earlier, procs);
        lemma_candidates_from_windows(earlier, procs);
        assert forall|k: int| 0 <= k < cs.len() implies exists|i: int|
            0 <= i < ws.len() && candidate_for(ws[i], procs) == Some(#[trigger] cs[k]) by {
            if k < before.len() {
                let i = choose|i: int|
                    0 <= i < earlier.len() && candidate_for(earlier[i], procs) == Some(before[k]);
                assert(ws[i] == earlier[i]);
            } else {
                assert(candidate_for(ws[ws.len() - 1], procs) == Some(cs[k]));
            }
        }
        if distinct_pids(ws) {
            assert(distinct_pids(earlier)) by {
                assert forall|i: int, j: int|
                    0 <= i < j < earlier.len() implies #[trigger] earlier[i].pid
                    != #[trigger] earlier[j].pid by {
                    assert(earlier[i] == ws[i] && earlier[j] == ws[j]);
                }
            }
            assert forall|k: int, m: int| 0 <= k < m < cs.len() implies (#[trigger] cs[k]).pid != (
            #[trigger] cs[m]).pid by {
                if m == before.len() {
                    let i = choose|i: int|
                        0 <= i < earlier.len() && candidate_for(earlier[i], procs) == Some(
                            before[k],
                        );
                    assert(ws[i].pid == before[k].pid);
                    assert(ws[ws.len() - 1].pid == cs[m].pid);
                }
            }
        }
    }
}

/// Where an application of the list comes from: a window that stands for its process.
/// The application has that window's process and title, and the name under which the
/// process table knows the process, which is not excluded.
pub proof fn lemma_app_origin(
    ws: Seq<WindowRecord>,
    procs: Seq<ProcessRecord>,
    icons: Seq<DrawnRecord>,
    k: int,
) -> (i: int)
    requires
        0 <= k < running_apps(ws, procs, icons).len(),
    ensures
        is_kept(ws, i),
        candidate_for(ws[i], procs) is Some,
        running_apps(ws, procs, icons)[k] == entry_for(candidate_for(ws[i], procs)->0, icons),
{
    let kept = dedup(ws);
    let cs = candidates(kept, procs);
    let es = entries(cs, icons);
    let apps = running_apps(ws, procs, icons);
    lemma_sorted_by_title_members(es);
    assert(apps.contains(apps[k]));
    assert(es.contains(apps[k]));
    let m = choose|m: int| 0 <= m < es.len() && es[m] == apps[k];
    assert(es[m] == entry_for(cs[m], icons));
    lemma_candidates_from_windows(kept, procs);
    let d = choose|d: int| 0 <= d < kept.len() && candidate_for(kept[d], procs) == Some(cs[m]);
    lemma_dedup_keeps_longest(ws);
    let i = choose|i: int| is_kept(ws, i) && ws[i] == kept[d];
    i
}

/// The list of running applications is ordered by title without regard to case.
pub proof fn lemma_apps_ordered(
    ws: Seq<WindowRecord>,
    procs: Seq<ProcessRecord>,
    icons: Seq<DrawnRecord>,
)
    ensures
        is_sorted(running_apps(ws, procs, icons)),
{
    lemma_sorted_by_title_is_sorted(entries(candidates(dedup(ws), procs), icons));
}

/// No application of the list has a name that holds a member of the deny-list; none,
/// then, has a member of the deny-list for its name.
pub proof fn lemma_apps_not_excluded(
    ws: Seq<WindowRecord>,
    procs: Seq<ProcessRecord>,
    icons: Seq<DrawnRecord>,
)
    ensures
        none_excluded(running_apps(ws, procs, icons)),
        forall|k: int, m: int|
            0 <= k < running_apps(ws, procs, icons).len() && 0 <= m < deny_list().len() ==> (
            #[trigger] running_apps(ws, procs, icons)[k]).name != #[trigger] deny_list()[m],
{
    let apps = running_apps(ws, procs, icons);
    assert forall|k: int| 0 <= k < apps.len() implies !is_excluded((#[trigger] apps[k]).name) by {
        let i = lemma_app_origin(ws, procs, icons, k);
    }
    assert forall|k: int, m: int| 0 <= k < apps.len() && 0 <= m < deny_list().len() implies (
    #[trigger] apps[k]).name != #[trigger] deny_list()[m] by {
        lemma_members_excluded(m);
    }
}

/// The list holds at most one application for each process, and each has the title of
/// the window that stands for its process: the longest title among that process's
/// windows, the earliest of them where several are as long.
pub proof fn lemma_apps_one_per_process(
    ws: Seq<WindowRecord>,
    procs: Seq<ProcessRecord>,
    icons: Seq<DrawnRecord>,
)
    ensures
        one_per_process(running_apps(ws, procs, icons)),
        shows_kept_windows(ws, running_apps(ws, procs, icons)),
{
    let kept = dedup(ws);
    let cs = candidates(kept, procs);
    let es = entries(cs, icons);
    let apps = running_apps(ws, procs, icons);
    lemma_dedup_keeps_longest(ws);
    lemma_candidates_from_windows(kept, procs);
    assert(one_per_process(es)) by {
        assert forall|a: int, b: int| 0 <= a < b < es.len() implies (#[trigger] es[a]).pid != (
        #[trigger] es[b]).pid by {
            assert(cs[a].pid != cs[b].pid);
        }
    }
    lemma_sorted_by_title_one_per_process(es);
    assert forall|k: int| 0 <= k < apps.len() implies exists|i: int|
        is_kept(ws, i) && ws[i].pid == (#[trigger] apps[k]).pid && ws[i].title == apps[k].title by {
        let i = lemma_app_origin(ws, procs, icons, k);
        assert(is_kept(ws, i) && ws[i].pid == apps[k].pid && ws[i].title == apps[k].title);
    }
}

/// The list of running applications: one entry for each process that owns an
/// application window, under the longest title among its windows, without processes
/// that are gone from the table or excluded, each with the icon drawn for its
/// executable, ordered by title without regard to case.
pub fn get_running_apps(
    windows: &[WindowInfo],
    processes: &[ProcessDescriptor],
    icons: &[DrawnIcon],
) -> (apps: Vec<ProcessInfo>)
    ensures
        app_records(apps@) == running_apps(
            records(windows@),
            process_records(processes@),
            drawn_records(icons@),
        ),
        is_sorted(app_records(apps@)),
        one_per_process(app_records(apps@)),
        none_excluded(app_records(apps@)),
        shows_kept_windows(records(windows@), app_records(apps@)),
{
    let selected = select_applications(windows, processes);
    let mut listed: Vec<ProcessInfo> = Vec::new();
    let mut n: usize = 0;
    while n < selected.len()
        invariant
            n <= selected.len(),
            listed.len() == n,
            forall|k: int|
                0 <= k < n ==> (#[trigger] listed[k])@ == entry_for(
                    candidate_records(selected@)[k],
                    drawn_records(icons@),
                ),
        decreases selected.len() - n,
    {
        let app = attach_icon(&selected[n], icons);
        listed.push(app);
        n += 1;
    }
    assert(app_records(listed@) == entries(candidate_records(selected@), drawn_records(icons@)));
    let apps = sort_by_title(listed.as_slice());
    proof {
        let ws = records(windows@);
        let procs = process_records(processes@);
        let drawn = drawn_records(icons@);
        lemma_apps_ordered(ws, procs, drawn);
        lemma_apps_not_excluded(ws, procs, drawn);
        lemma_apps_one_per_process(ws, procs, drawn);
    }
    apps
}

} // verus!
