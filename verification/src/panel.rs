use std::collections::HashSet;
use vstd::prelude::*;
use vstd::string::StringExecFns;

use crate::order::{
    lemma_text_less_total, lemma_text_less_transitive,
    strictly_increasing, text_less, text_lt,
};
use crate::screen::{
    banner_button, banner_message, restart_button_label, restart_label, service_banner,
    shows_banner, FileRow, MenuButton, PanelView,
};
use crate::status::ServiceStatus;
use crate::store::{joined_lines, serialize_locked_files, texts};

verus! {

broadcast use vstd::std_specs::hash::group_hash_axioms;

/// How long the panel waits between two looks at the service, in
/// milliseconds.
pub const POLL_DELAY_MS: u64 = 1000;

/// What the user or a finished piece of work asks of the panel.
#[derive(Debug, Clone)]
pub enum Message {
    /// The check box of the file at this index was clicked.
    ToggleFileSelection(usize),
    /// The "add" button was pressed.
    ShowFilebox,
    /// The file dialog returned these paths.
    AddFiles(Vec<String>),
    /// The "remove" button was pressed.
    RemoveSelectedFiles,
    /// The button that starts or restarts the service was pressed.
    RestartService,
    /// Starting the service ended with this status.
    UpdateServiceStatus(ServiceStatus),
    /// Time to look at the service again.
    PollServiceStatus,
    /// Something failed; the text says what.
    Error(String),
    /// The "about" button was pressed.
    About,
    Nothing,
}

/// The outside work that the panel asks for after a message.
#[derive(Debug, Clone)]
pub enum Effect {
    Nothing,
    /// Open the file dialog; its paths come back as `Message::AddFiles`.
    PickFiles,
    /// Write these contents to the data file, then hand the outcome to
    /// `LockdownPanel::apply_save_result`.
    WriteDataFile(String),
    /// Run the start flow of the service (`flow::begin_start_flow` with
    /// this flag, which stops a running service first), then hand the
    /// outcome to `restart_result`.
    StartServiceFlow { should_stop_service: bool },
    /// If `query_now`, ask whether the service runs and hand the answer to
    /// `LockdownPanel::apply_service_answer`; in any case send
    /// `Message::PollServiceStatus` again after `delay_ms` milliseconds.
    Poll { query_now: bool, delay_ms: u64 },
    /// Open this address in the browser.
    OpenUrl(String),
}

/// The panel's state as mathematics.
pub struct PanelModel {
    pub files: Seq<Seq<char>>,
    pub selected: Set<usize>,
    pub status: ServiceStatus,
    pub errors: Seq<Seq<char>>,
    pub restart_required: bool,
}

/// The state of the control panel.
#[derive(Debug)]
pub struct LockdownPanel {
    files: Vec<String>,
    /// The indices of the files whose check box is ticked.
    selected_files: HashSet<usize>,
    service_status: ServiceStatus,
    error_message: Vec<String>,
    restart_required: bool,
}

/// `sel` with the membership of `index` flipped.
pub open spec fn toggled(sel: Set<usize>, index: usize) -> Set<usize> {
    if sel.contains(index) {
        sel.remove(index)
    } else {
        sel.insert(index)
    }
}

/// The files whose index is not in `sel`, in their order.
pub open spec fn unselected(files: Seq<Seq<char>>, sel: Set<usize>) -> Seq<Seq<char>>
    decreases files.len(),
{
    if files.len() == 0 {
        seq![]
    } else {
        let rest = unselected(files.drop_last(), sel);
        if sel.contains((files.len() - 1) as usize) {
            rest
        } else {
            rest.push(files.last())
        }
    }
}

/// `result` is `old` followed by the new paths that `old` lacks, sorted and
/// without repetition: what adding `new` to the list `old` gives.
pub open spec fn appends_new_paths(
    old: Seq<Seq<char>>,
    new: Seq<Seq<char>>,
    result: Seq<Seq<char>>,
) -> bool {
    &&& old.len() <= result.len()
    &&& result.take(old.len() as int) == old
    &&& strictly_increasing(result.skip(old.len() as int))
    &&& forall|p: Seq<char>|
        #[trigger] result.skip(old.len() as int).contains(p) <==> (new.contains(p)
            && !old.contains(p))
}

/// The status after the answer to "does the service run?".
pub open spec fn status_after_answer(status: ServiceStatus, answer: Result<bool, String>) -> ServiceStatus {
    match answer {
        Ok(true) => ServiceStatus::Running,
        Ok(false) => if status == ServiceStatus::Error {
            ServiceStatus::Error
        } else {
            ServiceStatus::Stopped
        },
        Err(_) => ServiceStatus::Error,
    }
}

/// The address that the "about" button opens.
pub open spec fn about_address() -> Seq<char> {
    "https://lockdown.imken.dev/about.html"@
}

impl LockdownPanel {
    pub closed spec fn model(&self) -> PanelModel {
        PanelModel {
            files: texts(self.files@),
            selected: self.selected_files@,
            status: self.service_status,
            errors: texts(self.error_message@),
            restart_required: self.restart_required,
        }
    }

    /// A panel over the files read from the data file, showing the service
    /// as running or stopped as it was found.
    pub fn from_loaded(files: Vec<String>, service_running: bool) -> (panel: Self)
        ensures
            panel.model().files == texts(files@),
            panel.model().selected == Set::<usize>::empty(),
            panel.model().status == (if service_running {
                ServiceStatus::Running
            } else {
                ServiceStatus::Stopped
            }),
            panel.model().errors == Seq::<Seq<char>>::empty(),
            !panel.model().restart_required,
    {
        let service_status = if service_running {
            ServiceStatus::Running
        } else {
            ServiceStatus::Stopped
        };
        let panel = LockdownPanel {
            files,
            selected_files: HashSet::new(),
            service_status,
            error_message: Vec::new(),
            restart_required: false,
        };
        assert(texts(panel.error_message@) =~= Seq::<Seq<char>>::empty());
        panel
    }

    /// The window's title.
    pub fn title(&self) -> (t: String)
        ensures
            t@ == "Lockdown Panel"@,
    {
        String::from_str("Lockdown Panel")
    }

    /// The listed files.
    pub fn files(&self) -> (r: &Vec<String>)
        ensures
            texts(r@) == self.model().files,
    {
        &self.files
    }

    /// Whether the file at `index` is selected.
    pub fn is_selected(&self, index: usize) -> (r: bool)
        ensures
            r == self.model().selected.contains(index),
    {
        self.selected_files.contains(&index)
    }

    /// What the panel knows of the service.
    pub fn service_status(&self) -> (r: ServiceStatus)
        ensures
            r == self.model().status,
    {
        self.service_status
    }

    /// The errors reported so far, oldest first.
    pub fn error_messages(&self) -> (r: &Vec<String>)
        ensures
            texts(r@) == self.model().errors,
    {
        &self.error_message
    }

    /// Whether the service must restart to apply a change of the list.
    pub fn restart_required(&self) -> (r: bool)
        ensures
            r == self.model().restart_required,
    {
        self.restart_required
    }

    fn toggle_selection(&mut self, index: usize)
        ensures
            final(self).model() == (PanelModel {
                selected: toggled(old(self).model().selected, index),
                ..old(self).model()
            }),
            final(self).model().selected.contains(index) == !old(self).model().selected.contains(
                index,
            ),
            forall|j: usize|
                j != index ==> final(self).model().selected.contains(j) == old(
                    self,
                ).model().selected.contains(j),
    {
        if self.selected_files.contains(&index) {
            self.selected_files.remove(&index);
        } else {
            self.selected_files.insert(index);
        }
    }

    fn remove_selected(&mut self)
        ensures
            final(self).model() == (PanelModel {
                files: unselected(old(self).model().files, old(self).model().selected),
                selected: Set::<usize>::empty(),
                ..old(self).model()
            }),
    {
        let ghost all = texts(self.files@);
        let mut kept: Vec<String> = Vec::new();
        let n = self.files.len();
        let mut i: usize = 0;
        while i < n
            invariant
                i <= n,
                n == self.files@.len(),
                all == texts(self.files@),
                texts(kept@) == unselected(all.take(i as int), self.selected_files@),
            decreases n - i,
        {
            assert(all.take(i + 1).drop_last() =~= all.take(i as int));
            if !self.selected_files.contains(&i) {
                let ghost before = kept@;
                kept.push(self.files[i].clone());
                assert(texts(kept@) =~= texts(before).push(all[i as int]));
            }
            i = i + 1;
        }
        assert(all.take(n as int) =~= all);
        self.files = kept;
        self.selected_files.clear();
    }

    fn add_files(&mut self, new_files: Vec<String>)
        ensures
            appends_new_paths(old(self).model().files, texts(new_files@), final(self).model().files),
            final(self).model() == (PanelModel { files: final(self).model().files, ..old(self).model() }),
    {
        let ghost old_files = texts(self.files@);
        let ghost news = texts(new_files@);
        let ghost m0 = self.model();
        let mut added: Vec<String> = Vec::new();
        let n = new_files.len();
        let mut i: usize = 0;
        while i < n
            invariant
                i <= n,
                n == new_files@.len(),
                news == texts(new_files@),
                old_files == texts(self.files@),
                strictly_increasing(texts(added@)),
                forall|p: Seq<char>|
                    #[trigger] texts(added@).contains(p) <==> (news.take(i as int).contains(p)
                        && !old_files.contains(p)),
            decreases n - i,
        {
            let f = &new_files[i];
            assert(news.take(i + 1) =~= news.take(i as int).push(f@));
            let ghost before = texts(added@);
            if !contains_text(&self.files, f) && !contains_text(&added, f) {
                insert_in_order(&mut added, f.clone());
            }
            assert forall|p: Seq<char>|
                #[trigger] texts(added@).contains(p) <==> (news.take(i + 1).contains(p)
                    && !old_files.contains(p)) by {
                if news.take(i + 1).contains(p) {
                    let k = choose|k: int| 0 <= k < news.take(i + 1).len() && #[trigger] news.take(i + 1)[k] == p;
                    if k < i {
                        assert(news.take(i as int)[k] == p);
                    }
                }
                if news.take(i as int).contains(p) {
                    let k = choose|k: int| 0 <= k < news.take(i as int).len() && #[trigger] news.take(i as int)[k] == p;
                    assert(news.take(i + 1)[k] == p);
                }
                if p == f@ {
                    assert(news.take(i + 1)[i as int] == p);
                }
            }
            i = i + 1;
        }
        assert(news.take(n as int) =~= news);
        let m = added.len();
        let mut j: usize = 0;
        while j < m
            invariant
                j <= m,
                m == added@.len(),
                texts(self.files@) == old_files + texts(added@).take(j as int),
                self.selected_files@ == m0.selected,
                self.service_status == m0.status,
                texts(self.error_message@) == m0.errors,
                self.restart_required == m0.restart_required,
            decreases m - j,
        {
            let ghost before = self.files@;
            self.files.push(added[j].clone());
            assert(texts(self.files@) =~= texts(before).push(added@[j as int]@));
            assert(texts(added@).take(j + 1) =~= texts(added@).take(j as int).push(
                added@[j as int]@,
            ));
            j = j + 1;
        }
        assert(texts(added@).take(m as int) =~= texts(added@));
        assert((old_files + texts(added@)).take(old_files.len() as int) =~= old_files);
        assert((old_files + texts(added@)).skip(old_files.len() as int) =~= texts(added@));
    }

    /// Takes in a message: changes the panel as the message asks and says
    /// what outside work must follow.
    pub fn update(&mut self, message: Message) -> (effect: Effect)
        ensures
            ({
                let before = old(self).model();
                let after = final(self).model();
                match message {
                    Message::ToggleFileSelection(index) => {
                        &&& after == (PanelModel { selected: toggled(before.selected, index), ..before })
                        &&& effect is Nothing
                    },
                    Message::Error(text) => {
                        &&& after == (PanelModel { errors: before.errors.push(text@), ..before })
                        &&& effect is Nothing
                    },
                    Message::ShowFilebox => after == before && effect is PickFiles,
                    Message::RemoveSelectedFiles => {
                        &&& after == (PanelModel {
                            files: unselected(before.files, before.selected),
                            selected: Set::<usize>::empty(),
                            ..before
                        })
                        &&& effect matches Effect::WriteDataFile(contents)
                        &&& contents@ == joined_lines(after.files)
                    },
                    Message::RestartService => {
                        &&& after == (PanelModel {
                            status: ServiceStatus::Starting,
                            restart_required: false,
                            ..before
                        })
                        &&& effect matches Effect::StartServiceFlow { should_stop_service: true }
                    },
                    Message::UpdateServiceStatus(status) => {
                        &&& after == (PanelModel { status: status, ..before })
                        &&& effect is Nothing
                    },
                    Message::PollServiceStatus => {
                        &&& after == before
                        &&& effect == (Effect::Poll {
                            query_now: before.status != ServiceStatus::Starting,
                            delay_ms: POLL_DELAY_MS,
                        })
                    },
                    Message::AddFiles(new_files) => {
                        &&& appends_new_paths(before.files, texts(new_files@), after.files)
                        &&& after == (PanelModel { files: after.files, ..before })
                        &&& effect matches Effect::WriteDataFile(contents)
                        &&& contents@ == joined_lines(after.files)
                    },
                    Message::About => {
                        &&& after == before
                        &&& effect matches Effect::OpenUrl(address)
                        &&& address@ == about_address()
                    },
                    Message::Nothing => after == before && effect is Nothing,
                }
            }),
    {
        match message {
            Message::ToggleFileSelection(index) => {
                self.toggle_selection(index);
                Effect::Nothing
            },
            Message::Error(text) => {
                let ghost before = self.error_message@;
                self.error_message.push(text);
                assert(texts(self.error_message@) =~= texts(before).push(text@));
                Effect::Nothing
            },
            Message::ShowFilebox => Effect::PickFiles,
            Message::RemoveSelectedFiles => {
                self.remove_selected();
                Effect::WriteDataFile(serialize_locked_files(&self.files))
            },
            Message::RestartService => {
                self.service_status = ServiceStatus::Starting;
                self.restart_required = false;
                Effect::StartServiceFlow { should_stop_service: true }
            },
            Message::UpdateServiceStatus(status) => {
                self.service_status = status;
                Effect::Nothing
            },
            Message::PollServiceStatus => {
                Effect::Poll {
                    query_now: self.service_status != ServiceStatus::Starting,
                    delay_ms: POLL_DELAY_MS,
                }
            },
            Message::AddFiles(new_files) => {
                self.add_files(new_files);
                Effect::WriteDataFile(serialize_locked_files(&self.files))
            },
            Message::About => Effect::OpenUrl(
                String::from_str("https://lockdown.imken.dev/about.html"),
            ),
            Message::Nothing => Effect::Nothing,
        }
    }

    /// What the panel shows: a heading, the banner of the service when it
    /// is not running or must restart, the errors so far, the button that
    /// starts or restarts the service (disabled while it starts), and one
    /// check box per file, ticked when the file is selected.
    pub fn view(&self) -> (v: PanelView)
        ensures
            v.heading@ == "Lockdown 面板"@,
            v.banner is Some <==> shows_banner(self.model().status, self.model().restart_required),
            v.banner is Some <==> (self.model().status != ServiceStatus::Running
                || self.model().restart_required),
            v.banner matches Some(b) ==> {
                &&& b.message@ == banner_message(self.model().status, self.model().restart_required)
                &&& (b.button is Some <==> banner_button(
                    self.model().status,
                    self.model().restart_required,
                ) is Some)
                &&& b.button matches Some(btn) ==> btn.label@ == banner_button(
                    self.model().status,
                    self.model().restart_required,
                )->0 && btn.press is RestartService
            },
            texts(v.errors@) == self.model().errors,
            v.menu@.len() == 4,
            v.menu@[0].label@ == "添加"@,
            v.menu@[0].press matches Some(Message::ShowFilebox),
            v.menu@[0].primary,
            v.menu@[1].label@ == "移除"@,
            v.menu@[1].press matches Some(Message::RemoveSelectedFiles),
            !v.menu@[1].primary,
            v.menu@[2].label@ == restart_label(self.model().status),
            v.menu@[2].press is Some <==> self.model().status != ServiceStatus::Starting,
            v.menu@[2].press matches Some(m) ==> m is RestartService,
            !v.menu@[2].primary,
            v.menu@[3].label@ == "关于"@,
            v.menu@[3].press matches Some(Message::About),
            !v.menu@[3].primary,
            v.files@.len() == self.model().files.len(),
            forall|i: int|
                0 <= i < v.files@.len() ==> {
                    &&& (#[trigger] v.files@[i]).path@ == self.model().files[i]
                    &&& v.files@[i].checked == self.model().selected.contains(i as usize)
                },
    {
        let banner = if self.service_status != ServiceStatus::Running || self.restart_required {
            Some(service_banner(self.service_status, self.restart_required))
        } else {
            None
        };
        let mut errors: Vec<String> = Vec::new();
        let ne = self.error_message.len();
        let mut k: usize = 0;
        while k < ne
            invariant
                k <= ne,
                ne == self.error_message@.len(),
                texts(errors@) == texts(self.error_message@).take(k as int),
            decreases ne - k,
        {
            let ghost before = errors@;
            errors.push(self.error_message[k].clone());
            assert(texts(errors@) =~= texts(before).push(self.error_message@[k as int]@));
            assert(texts(self.error_message@).take(k + 1) =~= texts(self.error_message@).take(
                k as int,
            ).push(self.error_message@[k as int]@));
            k = k + 1;
        }
        assert(texts(self.error_message@).take(ne as int) =~= texts(self.error_message@));
        let mut rows: Vec<FileRow> = Vec::new();
        let n = self.files.len();
        let mut i: usize = 0;
        while i < n
            invariant
                i <= n,
                n == self.files@.len(),
                rows@.len() == i,
                forall|j: int|
                    0 <= j < i ==> {
                        &&& (#[trigger] rows@[j]).path@ == self.files@[j]@
                        &&& rows@[j].checked == self.selected_files@.contains(j as usize)
                    },
            decreases n - i,
        {
            let checked = self.selected_files.contains(&i);
            rows.push(FileRow { path: self.files[i].clone(), checked });
            i = i + 1;
        }
        let mut menu: Vec<MenuButton> = Vec::new();
        menu.push(MenuButton {
            label: String::from_str("添加"),
            press: Some(Message::ShowFilebox),
            primary: true,
        });
        menu.push(MenuButton {
            label: String::from_str("移除"),
            press: Some(Message::RemoveSelectedFiles),
            primary: false,
        });
        menu.push(MenuButton {
            label: restart_button_label(self.service_status),
            press: if self.service_status == ServiceStatus::Starting {
                None
            } else {
                Some(Message::RestartService)
            },
            primary: false,
        });
        menu.push(MenuButton {
            label: String::from_str("关于"),
            press: Some(Message::About),
            primary: false,
        });
        PanelView {
            heading: String::from_str("Lockdown 面板"),
            banner,
            errors,
            menu,
            files: rows,
        }
    }

    /// Takes in the outcome of writing the data file: on success the service
    /// must restart to apply the change; a failure comes back as an error
    /// message to show, and the panel stays as it is.
    pub fn apply_save_result(&mut self, result: Result<(), String>) -> (follow_up: Option<Message>)
        ensures
            match result {
                Ok(_) => {
                    &&& final(self).model() == (PanelModel {
                        restart_required: true,
                        ..old(self).model()
                    })
                    &&& follow_up is None
                },
                Err(text) => {
                    &&& final(self).model() == old(self).model()
                    &&& follow_up matches Some(Message::Error(t))
                    &&& t@ == text@
                },
            },
    {
        match result {
            Ok(_) => {
                self.restart_required = true;
                None
            },
            Err(text) => Some(Message::Error(text)),
        }
    }

    /// Takes in the answer to "does the service run?".
    pub fn apply_service_answer(&mut self, answer: Result<bool, String>)
        ensures
            final(self).model() == (PanelModel {
                status: status_after_answer(old(self).model().status, answer),
                ..old(self).model()
            }),
            answer matches Ok(true) ==> final(self).model().status == ServiceStatus::Running,
            answer matches Ok(false) ==> final(self).model().status == (if old(self).model().status
                == ServiceStatus::Error {
                ServiceStatus::Error
            } else {
                ServiceStatus::Stopped
            }),
            answer is Err ==> final(self).model().status == ServiceStatus::Error,
    {
        match answer {
            Ok(true) => {
                self.service_status = ServiceStatus::Running;
            },
            Ok(false) => {
                if self.service_status != ServiceStatus::Error {
                    self.service_status = ServiceStatus::Stopped;
                }
            },
            Err(_) => {
                self.service_status = ServiceStatus::Error;
            },
        }
    }
}

/// The message that ends a run of the start flow: the service runs if the
/// flow succeeded, and is in error otherwise.
pub fn restart_result(result: Result<(), String>) -> (m: Message)
    ensures
        m == (match result {
            Ok(_) => Message::UpdateServiceStatus(ServiceStatus::Running),
            Err(_) => Message::UpdateServiceStatus(ServiceStatus::Error),
        }),
{
    match result {
        Ok(_) => Message::UpdateServiceStatus(ServiceStatus::Running),
        Err(_) => Message::UpdateServiceStatus(ServiceStatus::Error),
    }
}

/// Whether `v` holds a string with the text of `s`.
fn contains_text(v: &Vec<String>, s: &String) -> (r: bool)
    ensures
        r == texts(v@).contains(s@),
{
    let n = v.len();
    let mut i: usize = 0;
    while i < n
        invariant
            i <= n,
            n == v@.len(),
            forall|k: int| 0 <= k < i ==> v@[k]@ != s@,
        decreases n - i,
    {
        if v[i] == *s {
            assert(texts(v@)[i as int] == s@);
            return true;
        }
        i = i + 1;
    }
    proof {
        if texts(v@).contains(s@) {
            let k = choose|k: int| 0 <= k < texts(v@).len() && texts(v@)[k] == s@;
            assert(v@[k]@ == s@);
        }
    }
    false
}

/// Puts `s` into the strictly increasing `v` where it keeps the order.
fn insert_in_order(v: &mut Vec<String>, s: String)
    requires
        strictly_increasing(texts(old(v)@)),
        !texts(old(v)@).contains(s@),
    ensures
        strictly_increasing(texts(final(v)@)),
        forall|p: Seq<char>|
            #[trigger] texts(final(v)@).contains(p) <==> (texts(old(v)@).contains(p) || p == s@),
{
    let ghost t = texts(v@);
    let n = v.len();
    let mut j: usize = 0;
    let mut found = false;
    while j < n && !found
        invariant
            j <= n,
            n == v@.len(),
            t == texts(v@),
            !t.contains(s@),
            strictly_increasing(t),
            forall|k: int| 0 <= k < j ==> text_less(#[trigger] t[k], s@),
            found ==> j < n && text_less(s@, t[j as int]),
        decreases n - j + (if found { 0int } else { 1int }),
    {
        if text_lt(s.as_str(), v[j].as_str()) {
            found = true;
        } else {
            proof {
            assert(t[j as int] == v@[j as int]@);
            if t[j as int] == s@ {
                assert(t.contains(s@));
            }
            lemma_text_less_total(t[j as int], s@);
            }
            j = j + 1;
        }
    }
    v.insert(j, s);
    let ghost u = texts(v@);
    assert(u =~= t.insert(j as int, s@));
    assert forall|a: int, b: int| 0 <= a < b < u.len() implies text_less(
        #[trigger] u[a],
        #[trigger] u[b],
    ) by {
        if b < j {
            assert(u[a] == t[a] && u[b] == t[b]);
        } else if b == j {
            assert(u[a] == t[a]);
        } else if a > j {
            assert(u[a] == t[a - 1] && u[b] == t[b - 1]);
        } else if a == j {
            assert(u[b] == t[b - 1]);
            assert(text_less(s@, t[j as int]));
            if b - 1 > j {
                lemma_text_less_transitive(s@, t[j as int], t[b - 1]);
            }
        } else {
            assert(u[a] == t[a] && u[b] == t[b - 1]);
            assert(text_less(t[a], s@));
            assert(text_less(s@, t[j as int]));
            if b - 1 > j {
                lemma_text_less_transitive(s@, t[j as int], t[b - 1]);
            }
            lemma_text_less_transitive(t[a], s@, t[b - 1]);
        }
    }
    assert forall|p: Seq<char>| #[trigger] u.contains(p) <==> (t.contains(p) || p == s@) by {
        if u.contains(p) {
            let k = choose|k: int| 0 <= k < u.len() && u[k] == p;
            if k < j {
                assert(t[k] == p);
            } else if k > j {
                assert(t[k - 1] == p);
            }
        }
        if t.contains(p) {
            let k = choose|k: int| 0 <= k < t.len() && t[k] == p;
            if k < j {
                assert(u[k] == p);
            } else {
                assert(u[k + 1] == p);
            }
        }
        if p == s@ {
            assert(u[j as int] == p);
        }
    }
}

} // verus!
