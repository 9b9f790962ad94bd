//! Reopening and arranging the windows of a moment: a plan, to be read before it
//! is carried out.
use crate::hypr::{client_rows, Client, ClientRow};
use crate::json::{
    self, field_of, i64_in, json_of, jsons, list_in, no_entries, or, text_in, Fields, Json,
};
use crate::rows::option_view;
use crate::search::{join_path, joined_path};
use crate::text::{
    self, decimal, joined, lines, lower, number_in, occurs, pieces, texts, trim, views, words, Separator,
};
use serde_json::Value;
use vstd::prelude::*;

verus! {

/// An application that can be launched.
#[derive(Debug)]
pub struct Desktop {
    pub id: String,
    pub name: String,
    pub command: String,
    pub wm_class: String,
}

/// What an application that can be launched says.
#[verifier::ext_equal]
pub struct DesktopRow {
    pub id: Seq<char>,
    pub name: Seq<char>,
    pub command: Seq<char>,
    pub wm_class: Seq<char>,
}

impl View for Desktop {
    type V = DesktopRow;

    open spec fn view(&self) -> DesktopRow {
        DesktopRow { id: self.id@, name: self.name@, command: self.command@, wm_class: self.wm_class@ }
    }
}

impl Clone for Desktop {
    fn clone(&self) -> (r: Self)
        ensures
            r == *self,
    {
        Desktop {
            id: self.id.clone(),
            name: self.name.clone(),
            command: self.command.clone(),
            wm_class: self.wm_class.clone(),
        }
    }
}

/// The words of a command that are no placeholders.
pub open spec fn plain_words(ws: Seq<Seq<char>>) -> Seq<Seq<char>>
    decreases ws.len(),
{
    if ws.len() == 0 {
        ws
    } else {
        let front = plain_words(ws.drop_last());
        let w = ws.last();
        if w.len() > 0 && w[0] == '%' {
            front
        } else {
            front.push(w)
        }
    }
}

/// A command without its placeholders.
pub open spec fn command_in(command: Seq<char>) -> Seq<char> {
    joined(plain_words(words(command)), " "@)
}

fn strip_exec(command: &str) -> (r: String)
    ensures
        r@ == command_in(command@),
{
    let ws = text::words_of(command);
    let ghost all = words(command@);
    let mut out: Vec<Vec<char>> = Vec::new();
    let mut i: usize = 0;
    assert(all.take(0) =~= Seq::<Seq<char>>::empty());
    assert(views(out@) =~= Seq::<Seq<char>>::empty());
    while i < ws.len()
        invariant
            i <= ws@.len(),
            all == views(ws@),
            views(out@) == plain_words(all.take(i as int)),
        decreases ws@.len() - i,
    {
        assert(all.take(i + 1).drop_last() =~= all.take(i as int));
        assert(all.take(i + 1).last() == ws@[i as int]@);
        if !(ws[i].len() > 0 && ws[i][0] == '%') {
            let ghost was = views(out@);
            let w = text::copy_chars(&ws[i]);
            let ghost added = w@;
            out.push(w);
            assert(views(out@) =~= was.push(added));
        }
        i += 1;
    }
    assert(all.take(i as int) =~= all);
    text::join(&out, " ")
}

/// What has been read of a desktop file.
#[verifier::ext_equal]
pub struct Reading {
    /// In the part of the file that is about the application.
    pub inside: bool,
    pub name: Seq<char>,
    pub command: Seq<char>,
    pub wm_class: Seq<char>,
}

/// The part of a text before its first `mark`, and the part after it.
pub open spec fn parted(s: Seq<char>, mark: char, a: Seq<char>, b: Seq<char>) -> bool {
    !a.contains(mark) && s == a.push(mark) + b
}

/// A key and its value on a line.
pub open spec fn pair_on(line: Seq<char>) -> Option<(Seq<char>, Seq<char>)> {
    if line.contains('=') {
        let i = line.index_of_first('=').unwrap();
        Some((line.take(i), line.skip(i + 1)))
    } else {
        None
    }
}

/// What one more line of a desktop file tells. The first name and the first
/// command count, and the last class.
pub open spec fn read_line(r: Reading, raw: Seq<char>) -> Reading {
    let line = trim(raw);
    if line.len() > 0 && line[0] == '[' {
        Reading { inside: lower(line) == lower("[desktop entry]"@), ..r }
    } else if !r.inside || line.len() == 0 || line[0] == '#' {
        r
    } else {
        match pair_on(line) {
            Some(p) => {
                let key = trim(p.0);
                let value = trim(p.1);
                if key == "Name"@ && r.name.len() == 0 {
                    Reading { name: value, ..r }
                } else if key == "Exec"@ && r.command.len() == 0 {
                    Reading { command: command_in(value), ..r }
                } else if key == "StartupWMClass"@ {
                    Reading { wm_class: value, ..r }
                } else {
                    r
                }
            },
            None => r,
        }
    }
}

/// What the lines of a desktop file tell.
pub open spec fn read_lines(ls: Seq<Seq<char>>) -> Reading
    decreases ls.len(),
{
    if ls.len() == 0 {
        Reading { inside: false, name: Seq::empty(), command: Seq::empty(), wm_class: Seq::empty() }
    } else {
        read_line(read_lines(ls.drop_last()), ls.last())
    }
}

/// The application that a desktop file describes; none without a command.
pub open spec fn desktop_in(id: Seq<char>, raw: Seq<char>) -> Option<DesktopRow> {
    let r = read_lines(lines(raw));
    if r.command.len() == 0 {
        None
    } else {
        Some(DesktopRow { id, name: r.name, command: r.command, wm_class: r.wm_class })
    }
}

proof fn lemma_pair_on(line: Seq<char>, a: Seq<char>, b: Seq<char>)
    requires
        parted(line, '=', a, b),
    ensures
        pair_on(line) == Some((a, b)),
{
    let n = a.len() as int;
    assert(line[n] == '=');
    line.index_of_first_ensures('=');
    let i = line.index_of_first('=').unwrap();
    if i < n {
        assert(a[i] == '=');
        assert(a.contains('='));
    }
    assert(i == n);
    assert(line.take(i) =~= a);
    assert(line.skip(i + 1) =~= b);
}

/// The application that a desktop file describes. `stem` is the name of the file
/// without its extension.
pub fn parse_desktop(stem: Option<&str>, raw: &str) -> (r: Option<Desktop>)
    ensures
        match desktop_in(
            match stem {
                Some(s) => s@,
                None => "app"@,
            },
            raw@,
        ) {
            Some(d) => r matches Some(x) && x@ == d,
            None => r is None,
        },
{
    let ls = text::lines_of(raw);
    let ghost all = lines(raw@);
    let mut name = String::new();
    let mut command = String::new();
    let mut wm_class = String::new();
    let mut inside = false;
    let mut i: usize = 0;
    assert(all.take(0) =~= Seq::<Seq<char>>::empty());
    assert(read_lines(all.take(0)) =~= Reading { inside, name: name@, command: command@, wm_class: wm_class@ });
    while i < ls.len()
        invariant
            i <= ls@.len(),
            all == views(ls@),
            read_lines(all.take(i as int)) == (Reading { inside, name: name@, command: command@, wm_class: wm_class@ }),
        decreases ls@.len() - i,
    {
        proof {
            assert(all.take(i + 1).drop_last() =~= all.take(i as int));
            assert(all.take(i + 1).last() == ls@[i as int]@);
        }
        let ghost before = read_lines(all.take(i as int));
        let line = text::trim_chars(&ls[i]);
        if line.len() > 0 && line[0] == '[' {
            let head = text::string_of(&line);
            inside = text::same_ignoring_case(head.as_str(), "[desktop entry]");
        } else if inside && line.len() > 0 && line[0] != '#' {
            match text::split_once(&line, '=') {
                Some(p) => {
                    proof {
                        lemma_pair_on(line@, p.0@, p.1@);
                        crate::lookup::lemma_bytes_in(name@);
                        crate::lookup::lemma_bytes_in(command@);
                    }
                    let key = text::string_of(&text::trim_chars(&p.0));
                    let value = text::string_of(&text::trim_chars(&p.1));
                    if text::same(key.as_str(), "Name") && text::byte_len(name.as_str()) == 0 {
                        name = value;
                    } else if text::same(key.as_str(), "Exec") && text::byte_len(command.as_str()) == 0 {
                        command = strip_exec(value.as_str());
                    } else if text::same(key.as_str(), "StartupWMClass") {
                        wm_class = value;
                    }
                },
                None => {},
            }
        }
        assert(read_line(before, ls@[i as int]@) =~= Reading {
            inside,
            name: name@,
            command: command@,
            wm_class: wm_class@,
        });
        i += 1;
    }
    assert(all.take(i as int) =~= all);
    proof {
        crate::lookup::lemma_bytes_in(command@);
    }
    if text::byte_len(command.as_str()) == 0 {
        return None;
    }
    let id = match stem {
        Some(s) => s.to_string(),
        None => "app".to_string(),
    };
    Some(Desktop { id, name, command, wm_class })
}

/// The applications that can be launched, by the names that they are known
/// under.
#[derive(Debug)]
pub struct DesktopMap {
    entries: Vec<(String, Desktop)>,
}

/// What a list of named applications says.
pub open spec fn entry_rows(v: Seq<(String, Desktop)>) -> Seq<(Seq<char>, DesktopRow)> {
    v.map_values(|e: (String, Desktop)| (e.0@, e.1@))
}

impl View for DesktopMap {
    type V = Seq<(Seq<char>, DesktopRow)>;

    closed spec fn view(&self) -> Seq<(Seq<char>, DesktopRow)> {
        entry_rows(self.entries@)
    }
}

/// The application under a name.
pub open spec fn known_as(m: Seq<(Seq<char>, DesktopRow)>, key: Seq<char>) -> Option<DesktopRow>
    decreases m.len(),
{
    if m.len() == 0 {
        None
    } else if m[0].0 == key {
        Some(m[0].1)
    } else {
        known_as(m.skip(1), key)
    }
}

/// The first application whose name is part of another one, or the other one of
/// it.
pub open spec fn akin_to(m: Seq<(Seq<char>, DesktopRow)>, key: Seq<char>) -> Option<DesktopRow>
    decreases m.len(),
{
    if m.len() == 0 {
        None
    } else if occurs(key, m[0].0) || occurs(m[0].0, key) {
        Some(m[0].1)
    } else {
        akin_to(m.skip(1), key)
    }
}

/// `d` under a name, in place of the one that was there.
pub open spec fn renamed(m: Seq<(Seq<char>, DesktopRow)>, key: Seq<char>, d: DesktopRow) -> Seq<
    (Seq<char>, DesktopRow),
>
    decreases m.len(),
{
    if m.len() == 0 {
        seq![(key, d)]
    } else if m[0].0 == key {
        seq![(key, d)] + m.skip(1)
    } else {
        seq![m[0]] + renamed(m.skip(1), key, d)
    }
}

/// `d` under a name that is not taken yet.
pub open spec fn named_if_free(m: Seq<(Seq<char>, DesktopRow)>, key: Seq<char>, d: DesktopRow) -> Seq<
    (Seq<char>, DesktopRow),
> {
    if known_as(m, key) is Some {
        m
    } else {
        renamed(m, key, d)
    }
}

/// A desktop file more. Its application is known by its class and by its file,
/// whatever the case of their letters.
pub open spec fn with_file(m: Seq<(Seq<char>, DesktopRow)>, stem: Option<Seq<char>>, raw: Seq<char>) -> Seq<
    (Seq<char>, DesktopRow),
> {
    match desktop_in(or(stem, "app"@), raw) {
        Some(d) => {
            let a = if d.wm_class.len() > 0 {
                renamed(m, lower(d.wm_class), d)
            } else {
                m
            };
            named_if_free(renamed(a, lower(d.id), d), lower(or(stem, ""@)), d)
        },
        None => m,
    }
}

impl DesktopMap {
    /// No application.
    pub fn new() -> (r: Self)
        ensures
            r@ == Seq::<(Seq<char>, DesktopRow)>::empty(),
    {
        let m = DesktopMap { entries: Vec::new() };
        assert(m@ =~= Seq::<(Seq<char>, DesktopRow)>::empty());
        m
    }

    fn find(&self, key: &str) -> (r: Option<usize>)
        ensures
            match r {
                Some(i) => i < self@.len() && self@[i as int].0 == key@ && known_as(self@, key@) == Some(
                    self@[i as int].1,
                ) && forall|j: int| 0 <= j < i ==> (#[trigger] self@[j]).0 != key@,
                None => known_as(self@, key@) is None && forall|j: int|
                    0 <= j < self@.len() ==> (#[trigger] self@[j]).0 != key@,
            },
    {
        let ghost all = self@;
        let mut i: usize = 0;
        assert(all.skip(0) =~= all);
        while i < self.entries.len()
            invariant
                i <= self.entries@.len(),
                all == entry_rows(self.entries@),
                all == self@,
                known_as(all, key@) == known_as(all.skip(i as int), key@),
                forall|j: int| 0 <= j < i ==> (#[trigger] all[j]).0 != key@,
            decreases self.entries@.len() - i,
        {
            assert(all.skip(i as int).skip(1) =~= all.skip(i + 1));
            assert(all.skip(i as int)[0] == all[i as int]);
            if text::same(self.entries[i].0.as_str(), key) {
                return Some(i);
            }
            i += 1;
        }
        None
    }

    /// Make `d` the application under a name.
    pub fn insert(&mut self, key: String, d: Desktop)
        ensures
            final(self)@ == renamed(old(self)@, key@, d@),
    {
        let ghost all = self@;
        let ghost row = (key@, d@);
        match self.find(key.as_str()) {
            Some(i) => {
                proof {
                    lemma_renamed_at(all, key@, d@, i as int);
                }
                self.entries.set(i, (key, d));
                assert(self@ =~= all.update(i as int, row));
            },
            None => {
                proof {
                    lemma_renamed_new(all, key@, d@);
                }
                self.entries.push((key, d));
                assert(self@ =~= all.push(row));
            },
        }
    }

    /// Take in a desktop file.
    pub fn add(&mut self, stem: Option<&str>, raw: &str)
        ensures
            final(self)@ == with_file(
                old(self)@,
                match stem {
                    Some(s) => Some(s@),
                    None => None,
                },
                raw@,
            ),
    {
        if let Some(d) = parse_desktop(stem, raw) {
            proof {
                crate::lookup::lemma_bytes_in(d.wm_class@);
            }
            if text::byte_len(d.wm_class.as_str()) > 0 {
                self.insert(text::to_lower(d.wm_class.as_str()), d.clone());
            }
            self.insert(text::to_lower(d.id.as_str()), d.clone());
            let file = match stem {
                Some(s) => text::to_lower(s),
                None => text::to_lower(""),
            };
            if self.find(file.as_str()).is_none() {
                self.insert(file, d);
            }
        }
    }

    /// The application that a class is likely to belong to.
    pub fn lookup(&self, key: &str) -> (r: Option<&Desktop>)
        ensures
            match launcher(self@, key@) {
                Some(d) => r matches Some(x) && x@ == d,
                None => r is None,
            },
    {
        if let Some(i) = self.find(key) {
            return Some(&self.entries[i].1);
        }
        let ghost all = self@;
        let mut i: usize = 0;
        assert(all.skip(0) =~= all);
        while i < self.entries.len()
            invariant
                i <= self.entries@.len(),
                all == entry_rows(self.entries@),
                all == self@,
                known_as(all, key@) is None,
                akin_to(all, key@) == akin_to(all.skip(i as int), key@),
            decreases self.entries@.len() - i,
        {
            assert(all.skip(i as int).skip(1) =~= all.skip(i + 1));
            assert(all.skip(i as int)[0] == all[i as int]);
            let name = self.entries[i].0.as_str();
            if text::has(key, name) || text::has(name, key) {
                return Some(&self.entries[i].1);
            }
            i += 1;
        }
        None
    }
}

proof fn lemma_renamed_at(m: Seq<(Seq<char>, DesktopRow)>, key: Seq<char>, d: DesktopRow, i: int)
    requires
        0 <= i < m.len(),
        m[i].0 == key,
        forall|j: int| 0 <= j < i ==> (#[trigger] m[j]).0 != key,
    ensures
        renamed(m, key, d) == m.update(i, (key, d)),
    decreases m.len(),
{
    if i == 0 {
        assert(seq![(key, d)] + m.skip(1) =~= m.update(0, (key, d)));
    } else {
        let rest = m.skip(1);
        assert(m[0].0 != key);
        assert forall|j: int| 0 <= j < i - 1 implies (#[trigger] rest[j]).0 != key by {
            assert(rest[j] == m[j + 1]);
        }
        lemma_renamed_at(rest, key, d, i - 1);
        assert(seq![m[0]] + rest.update(i - 1, (key, d)) =~= m.update(i, (key, d)));
    }
}

proof fn lemma_renamed_new(m: Seq<(Seq<char>, DesktopRow)>, key: Seq<char>, d: DesktopRow)
    requires
        forall|j: int| 0 <= j < m.len() ==> (#[trigger] m[j]).0 != key,
    ensures
        renamed(m, key, d) == m.push((key, d)),
    decreases m.len(),
{
    if m.len() == 0 {
        assert(seq![(key, d)] =~= m.push((key, d)));
    } else {
        let rest = m.skip(1);
        assert forall|j: int| 0 <= j < rest.len() implies (#[trigger] rest[j]).0 != key by {
            assert(rest[j] == m[j + 1]);
        }
        lemma_renamed_new(rest, key, d);
        assert(seq![m[0]] + rest.push((key, d)) =~= m.push((key, d)));
    }
}

/// The application that a class is likely to belong to: the one known by that
/// name, else the first one that is known by a part of it or by more than it.
pub open spec fn launcher(m: Seq<(Seq<char>, DesktopRow)>, key: Seq<char>) -> Option<DesktopRow> {
    if known_as(m, key) is Some {
        known_as(m, key)
    } else {
        akin_to(m, key)
    }
}

/// A class is that of a browser.
pub open spec fn browses(class: Seq<char>) -> bool {
    let c = lower(class);
    ||| occurs(c, "firefox"@)
    ||| occurs(c, "chrome"@)
    ||| occurs(c, "chromium"@)
    ||| occurs(c, "brave"@)
    ||| occurs(c, "librewolf"@)
    ||| occurs(c, "vivaldi"@)
}

/// A class is that of a browser.
pub fn is_browser(class: &str) -> (r: bool)
    ensures
        r == browses(class@),
{
    let low = text::to_lower(class);
    let c = low.as_str();
    text::has(c, "firefox") || text::has(c, "chrome") || text::has(c, "chromium") || text::has(c, "brave")
        || text::has(c, "librewolf") || text::has(c, "vivaldi")
}

/// A live window is the one that was stored.
pub open spec fn same_window(l: ClientRow, win: ClientRow) -> bool {
    lower(l.class) == lower(win.class) && (l.title == win.title || l.address == win.address)
}

/// The first live window that is the one that was stored.
pub open spec fn live_for(live: Seq<ClientRow>, win: ClientRow) -> Option<ClientRow>
    decreases live.len(),
{
    if live.len() == 0 {
        None
    } else if same_window(live[0], win) {
        Some(live[0])
    } else {
        live_for(live.skip(1), win)
    }
}

/// The number of a workspace; the first one where it has none.
pub open spec fn workspace_number(s: Seq<char>) -> int {
    match number_in(s) {
        Some(n) => if i64::MIN <= n <= i64::MAX {
            n
        } else {
            1
        },
        None => 1,
    }
}

/// Move a window to its workspace.
pub open spec fn move_step(cur: ClientRow, win: ClientRow) -> Json {
    Json::Object(
        no_entries().insert("kind"@, Json::Text("move"@)).insert("address"@, Json::Text(cur.address)).insert(
            "class"@,
            Json::Text(win.class),
        ).insert("title"@, Json::Text(win.title)).insert(
            "workspace"@,
            Json::Int(workspace_number(win.workspace)),
        ).insert("label"@, Json::Text("Move "@ + win.class + " to workspace "@ + win.workspace)),
    )
}

/// Put a window in its place.
pub open spec fn geometry_step(cur: ClientRow, win: ClientRow) -> Json {
    Json::Object(
        no_entries().insert("kind"@, Json::Text("geometry"@)).insert("address"@, Json::Text(cur.address)).insert(
            "x"@,
            Json::Int(win.at.0 as int),
        ).insert("y"@, Json::Int(win.at.1 as int)).insert("w"@, Json::Int(win.size.0 as int)).insert(
            "h"@,
            Json::Int(win.size.1 as int),
        ).insert(
            "label"@,
            Json::Text(
                "Place "@ + win.class + " at "@ + decimal(win.at.0 as int) + ","@ + decimal(win.at.1 as int),
            ),
        ),
    )
}

/// Launch the application of a window.
pub open spec fn exec_step(d: DesktopRow, win: ClientRow) -> Json {
    Json::Object(
        no_entries().insert("kind"@, Json::Text("exec"@)).insert("class"@, Json::Text(win.class)).insert(
            "title"@,
            Json::Text(win.title),
        ).insert("cmd"@, Json::Text(d.command)).insert("desktop"@, Json::Text(d.id)).insert(
            "workspace"@,
            Json::Int(workspace_number(win.workspace)),
        ).insert(
            "label"@,
            Json::Text(
                "Launch "@ + (if d.name.len() == 0 {
                    d.id
                } else {
                    d.name
                }),
            ),
        ),
    )
}

/// Something of a window that cannot be had back, and why.
pub open spec fn lost(win: ClientRow, reason: Seq<char>) -> Json {
    Json::Object(
        no_entries().insert("class"@, Json::Text(win.class)).insert("title"@, Json::Text(win.title)).insert(
            "reason"@,
            Json::Text(reason),
        ),
    )
}

/// The title of a window says that it holds something unsaved.
pub open spec fn unsaved(win: ClientRow) -> bool {
    occurs(lower(win.title), "untitled"@) || occurs(lower(win.title), "unsaved"@)
}

/// What is to be done for a window.
pub open spec fn steps_for(win: ClientRow, live: Seq<ClientRow>, m: Seq<(Seq<char>, DesktopRow)>) -> Seq<Json> {
    if win.class.len() == 0 {
        Seq::empty()
    } else {
        match live_for(live, win) {
            Some(cur) => {
                let a = if cur.workspace != win.workspace {
                    seq![move_step(cur, win)]
                } else {
                    Seq::empty()
                };
                if win.floating {
                    a.push(geometry_step(cur, win))
                } else {
                    a
                }
            },
            None => match launcher(m, lower(win.class)) {
                Some(d) => seq![exec_step(d, win)],
                None => Seq::empty(),
            },
        }
    }
}

/// What of a window cannot be had back.
pub open spec fn losses_for(win: ClientRow, live: Seq<ClientRow>, m: Seq<(Seq<char>, DesktopRow)>) -> Seq<Json> {
    if win.class.len() == 0 {
        Seq::empty()
    } else {
        let gone = live_for(live, win) is None;
        let a = if gone && launcher(m, lower(win.class)) is None {
            seq![lost(win, "no desktop file for this class"@)]
        } else {
            Seq::empty()
        };
        let b = if gone && browses(win.class) {
            a.push(lost(win, "tabs and unsaved page state cannot be restored"@))
        } else {
            a
        };
        if unsaved(win) {
            b.push(lost(win, "unsaved document state is not in the snapshot"@))
        } else {
            b
        }
    }
}

/// What is to be done for stored windows.
pub open spec fn steps_of(stored: Seq<ClientRow>, live: Seq<ClientRow>, m: Seq<(Seq<char>, DesktopRow)>) -> Seq<Json>
    decreases stored.len(),
{
    if stored.len() == 0 {
        Seq::empty()
    } else {
        steps_of(stored.drop_last(), live, m) + steps_for(stored.last(), live, m)
    }
}

/// What of stored windows cannot be had back.
pub open spec fn losses_of(stored: Seq<ClientRow>, live: Seq<ClientRow>, m: Seq<(Seq<char>, DesktopRow)>) -> Seq<Json>
    decreases stored.len(),
{
    if stored.len() == 0 {
        Seq::empty()
    } else {
        losses_of(stored.drop_last(), live, m) + losses_for(stored.last(), live, m)
    }
}

/// The plan for stored windows.
pub open spec fn plan_json(stored: Seq<ClientRow>, live: Seq<ClientRow>, m: Seq<(Seq<char>, DesktopRow)>) -> Json {
    Json::Object(
        no_entries().insert("title"@, Json::Text("Reopen & arrange"@)).insert("honest"@, Json::Bool(true)).insert(
            "steps"@,
            Json::List(steps_of(stored, live, m)),
        ).insert("unrecoverable"@, Json::List(losses_of(stored, live, m))).insert(
            "note"@,
            Json::Text("This launches missing apps and places windows. It is not session restore."@),
        ),
    )
}

/// The parts of a list between colons that are not empty.
pub open spec fn listed(s: Seq<char>) -> Seq<Seq<char>> {
    pieces(s, Separator::Mark(':')).filter(|p: Seq<char>| p.len() > 0)
}

/// The directories that desktop files lie in, the user's own first. `extra` is a
/// list of others, with colons between them.
pub open spec fn application_paths(home: Option<Seq<char>>, extra: Option<Seq<char>>) -> Seq<Seq<char>> {
    (match home {
        Some(h) => seq![joined_path(h, ".local/share/applications"@)],
        None => Seq::empty(),
    }) + seq!["/usr/share/applications"@, "/usr/local/share/applications"@] + (match extra {
        Some(x) => listed(x),
        None => Seq::empty(),
    })
}

/// The directories that desktop files lie in.
pub fn application_dirs(home: &Option<String>, extra: &Option<String>) -> (r: Vec<String>)
    ensures
        texts(r@) == application_paths(option_view(*home), option_view(*extra)),
{
    let mut dirs: Vec<String> = Vec::new();
    let ghost own = match option_view(*home) {
        Some(h) => seq![joined_path(h, ".local/share/applications"@)],
        None => Seq::<Seq<char>>::empty(),
    };
    if let Some(h) = home {
        dirs.push(join_path(h.as_str(), ".local/share/applications"));
    }
    assert(texts(dirs@) =~= own);
    dirs.push("/usr/share/applications".to_string());
    dirs.push("/usr/local/share/applications".to_string());
    let ghost usual = own + seq!["/usr/share/applications"@, "/usr/local/share/applications"@];
    assert(texts(dirs@) =~= usual);
    if let Some(x) = extra {
        let v = text::chars_of(x.as_str());
        let parts = text::nonempty(text::split(&v, Separator::Mark(':')));
        let ghost rest = listed(x@);
        let mut i: usize = 0;
        assert(usual + rest.take(0) =~= usual);
        while i < parts.len()
            invariant
                i <= parts@.len(),
                views(parts@) == rest,
                texts(dirs@) == usual + rest.take(i as int),
            decreases parts@.len() - i,
        {
            let ghost was = texts(dirs@);
            let dir = text::string_of(&parts[i]);
            assert(dir@ == rest[i as int]);
            dirs.push(dir);
            assert(texts(dirs@) =~= was.push(rest[i as int]));
            assert(usual + rest.take(i + 1) =~= (usual + rest.take(i as int)).push(rest[i as int]));
            i += 1;
        }
        assert(rest.take(i as int) =~= rest);
    }
    assert(usual + Seq::<Seq<char>>::empty() =~= usual);
    dirs
}

fn find_live<'a>(live: &'a Vec<Client>, win: &Client) -> (r: Option<&'a Client>)
    ensures
        match live_for(client_rows(live@), win@) {
            Some(c) => r matches Some(x) && x@ == c,
            None => r is None,
        },
{
    let ghost all = client_rows(live@);
    let mut i: usize = 0;
    assert(all.skip(0) =~= all);
    while i < live.len()
        invariant
            i <= live@.len(),
            all == client_rows(live@),
            live_for(all, win@) == live_for(all.skip(i as int), win@),
        decreases live@.len() - i,
    {
        assert(all.skip(i as int).skip(1) =~= all.skip(i + 1));
        assert(all.skip(i as int)[0] == live@[i as int]@);
        let l = &live[i];
        if text::same_ignoring_case(l.class.as_str(), win.class.as_str()) && (text::same(
            l.title.as_str(),
            win.title.as_str(),
        ) || text::same(l.address.as_str(), win.address.as_str())) {
            return Some(l);
        }
        i += 1;
    }
    None
}

fn workspace_of(s: &str) -> (r: i64)
    ensures
        r == workspace_number(s@),
{
    let v = text::chars_of(s);
    match text::parse_i64(&v) {
        Some(n) => n,
        None => 1,
    }
}

fn tell_move(cur: &Client, win: &Client) -> (r: Value)
    ensures
        json_of(r) == move_step(cur@, win@),
{
    let mut label = "Move ".to_string();
    label.append(win.class.as_str());
    label.append(" to workspace ");
    label.append(win.workspace.as_str());
    Fields::new().text("kind", "move").text("address", cur.address.as_str()).text("class", win.class.as_str()).text(
        "title",
        win.title.as_str(),
    ).number("workspace", workspace_of(win.workspace.as_str())).text("label", label.as_str()).object()
}

fn tell_geometry(cur: &Client, win: &Client) -> (r: Value)
    ensures
        json_of(r) == geometry_step(cur@, win@),
{
    let x = text::i64_text(win.at.0);
    let y = text::i64_text(win.at.1);
    let mut label = "Place ".to_string();
    label.append(win.class.as_str());
    label.append(" at ");
    label.append(x.as_str());
    label.append(",");
    label.append(y.as_str());
    Fields::new().text("kind", "geometry").text("address", cur.address.as_str()).number("x", win.at.0).number(
        "y",
        win.at.1,
    ).number("w", win.size.0).number("h", win.size.1).text("label", label.as_str()).object()
}

fn tell_exec(d: &Desktop, win: &Client) -> (r: Value)
    ensures
        json_of(r) == exec_step(d@, win@),
{
    let mut label = "Launch ".to_string();
    proof {
        crate::lookup::lemma_bytes_in(d.name@);
    }
    if text::byte_len(d.name.as_str()) == 0 {
        label.append(d.id.as_str());
    } else {
        label.append(d.name.as_str());
    }
    Fields::new().text("kind", "exec").text("class", win.class.as_str()).text("title", win.title.as_str()).text(
        "cmd",
        d.command.as_str(),
    ).text("desktop", d.id.as_str()).number("workspace", workspace_of(win.workspace.as_str())).text(
        "label",
        label.as_str(),
    ).object()
}

fn tell_lost(win: &Client, reason: &str) -> (r: Value)
    ensures
        json_of(r) == lost(win@, reason@),
{
    Fields::new().text("class", win.class.as_str()).text("title", win.title.as_str()).text("reason", reason).object()
}

fn add(list: &mut Vec<Value>, v: Value)
    ensures
        jsons(final(list)@) == jsons(old(list)@).push(json_of(v)),
{
    let ghost was = jsons(list@);
    let ghost told = json_of(v);
    list.push(v);
    assert(jsons(list@) =~= was.push(told));
}

fn plan_window(win: &Client, live: &Vec<Client>, map: &DesktopMap, steps: &mut Vec<Value>, losses: &mut Vec<Value>)
    ensures
        jsons(final(steps)@) == jsons(old(steps)@) + steps_for(win@, client_rows(live@), map@),
        jsons(final(losses)@) == jsons(old(losses)@) + losses_for(win@, client_rows(live@), map@),
{
    let ghost s0 = jsons(steps@);
    let ghost l0 = jsons(losses@);
    proof {
        crate::lookup::lemma_bytes_in(win.class@);
    }
    if text::byte_len(win.class.as_str()) == 0 {
        assert(jsons(steps@) =~= s0 + steps_for(win@, client_rows(live@), map@));
        assert(jsons(losses@) =~= l0 + losses_for(win@, client_rows(live@), map@));
        return;
    }
    match find_live(live, win) {
        Some(cur) => {
            if !text::same(cur.workspace.as_str(), win.workspace.as_str()) {
                self::add(steps, tell_move(cur, win));
            }
            if win.floating {
                self::add(steps, tell_geometry(cur, win));
            }
        },
        None => {
            let key = text::to_lower(win.class.as_str());
            match map.lookup(key.as_str()) {
                Some(d) => {
                    self::add(steps, tell_exec(d, win));
                },
                None => {
                    self::add(losses, tell_lost(win, "no desktop file for this class"));
                },
            }
            if is_browser(win.class.as_str()) {
                self::add(losses, tell_lost(win, "tabs and unsaved page state cannot be restored"));
            }
        },
    }
    let title = text::to_lower(win.title.as_str());
    if text::has(title.as_str(), "untitled") || text::has(title.as_str(), "unsaved") {
        self::add(losses, tell_lost(win, "unsaved document state is not in the snapshot"));
    }
    assert(jsons(steps@) =~= s0 + steps_for(win@, client_rows(live@), map@));
    assert(jsons(losses@) =~= l0 + losses_for(win@, client_rows(live@), map@));
}

/// The plan for stored windows: what is to be done for each, given the windows
/// that are open now and the applications that can be launched, and what cannot
/// be had back.
pub fn build(stored: &Vec<Client>, live: &Vec<Client>, map: &DesktopMap) -> (r: Value)
    ensures
        json_of(r) == plan_json(client_rows(stored@), client_rows(live@), map@),
{
    let ghost wins = client_rows(stored@);
    let ghost now = client_rows(live@);
    let mut steps: Vec<Value> = Vec::new();
    let mut losses: Vec<Value> = Vec::new();
    let mut i: usize = 0;
    assert(wins.take(0) =~= Seq::<ClientRow>::empty());
    assert(jsons(steps@) =~= Seq::<Json>::empty());
    assert(jsons(losses@) =~= Seq::<Json>::empty());
    while i < stored.len()
        invariant
            i <= stored@.len(),
            wins == client_rows(stored@),
            now == client_rows(live@),
            jsons(steps@) == steps_of(wins.take(i as int), now, map@),
            jsons(losses@) == losses_of(wins.take(i as int), now, map@),
        decreases stored@.len() - i,
    {
        assert(wins.take(i + 1).drop_last() =~= wins.take(i as int));
        assert(wins.take(i + 1).last() == stored@[i as int]@);
        plan_window(&stored[i], live, map, &mut steps, &mut losses);
        i += 1;
    }
    assert(wins.take(i as int) =~= wins);
    Fields::new().text("title", "Reopen & arrange").flag("honest", true).put("steps", json::list(steps)).put(
        "unrecoverable",
        json::list(losses),
    ).text("note", "This launches missing apps and places windows. It is not session restore.").object()
}

/// The plan for one stored window.
pub fn build_one(target: &Client, live: &Vec<Client>, map: &DesktopMap) -> (r: Value)
    ensures
        json_of(r) == plan_json(seq![target@], client_rows(live@), map@),
{
    let mut stored: Vec<Client> = Vec::new();
    stored.push(target.clone());
    assert(client_rows(stored@) =~= seq![target@]);
    build(&stored, live, map)
}

/// What the compositor is asked for a step of a plan; nothing for a step that is
/// incomplete or of an unknown kind.
pub open spec fn request_for(step: Json) -> Option<Seq<char>> {
    let kind = or(text_in(field_of(step, "kind"@)), ""@);
    let address = text_in(field_of(step, "address"@));
    let workspace = i64_in(field_of(step, "workspace"@));
    if kind == "exec"@ {
        match text_in(field_of(step, "cmd"@)) {
            Some(cmd) => Some(
                "exec [workspace "@ + decimal(or(workspace, 1) as int) + " silent] "@ + cmd,
            ),
            None => None,
        }
    } else if kind == "move"@ {
        match (address, workspace) {
            (Some(a), Some(w)) => Some("movetoworkspacesilent "@ + decimal(w as int) + ",address:"@ + a),
            _ => None,
        }
    } else if kind == "geometry"@ {
        match (address, i64_in(field_of(step, "x"@)), i64_in(field_of(step, "y"@))) {
            (Some(a), Some(x), Some(y)) => Some(
                "movewindowpixel exact "@ + decimal(x as int) + " "@ + decimal(y as int) + ",address:"@ + a,
            ),
            _ => None,
        }
    } else {
        None
    }
}

fn request_of(step: &Value) -> (r: Option<String>)
    ensures
        match request_for(json_of(*step)) {
            Some(q) => r matches Some(s) && s@ == q,
            None => r is None,
        },
{
    let kind = json::text_or(step, "kind", "");
    if text::same(kind.as_str(), "exec") {
        match json::text_field(step, "cmd") {
            Some(cmd) => {
                let ws = match json::i64_field(step, "workspace") {
                    Some(n) => n,
                    None => 1,
                };
                let mut s = "exec [workspace ".to_string();
                s.append(text::i64_text(ws).as_str());
                s.append(" silent] ");
                s.append(cmd);
                Some(s)
            },
            None => None,
        }
    } else if text::same(kind.as_str(), "move") {
        match (json::text_field(step, "address"), json::i64_field(step, "workspace")) {
            (Some(a), Some(w)) => {
                let mut s = "movetoworkspacesilent ".to_string();
                s.append(text::i64_text(w).as_str());
                s.append(",address:");
                s.append(a);
                Some(s)
            },
            _ => None,
        }
    } else if text::same(kind.as_str(), "geometry") {
        match (json::text_field(step, "address"), json::i64_field(step, "x"), json::i64_field(step, "y")) {
            (Some(a), Some(x), Some(y)) => {
                let mut s = "movewindowpixel exact ".to_string();
                s.append(text::i64_text(x).as_str());
                s.append(" ");
                s.append(text::i64_text(y).as_str());
                s.append(",address:");
                s.append(a);
                Some(s)
            },
            _ => None,
        }
    } else {
        None
    }
}

/// The steps of a plan that can be carried out.
pub open spec fn runnable(steps: Seq<Json>) -> Seq<Json>
    decreases steps.len(),
{
    if steps.len() == 0 {
        steps
    } else if request_for(steps.last()) is Some {
        runnable(steps.drop_last()).push(steps.last())
    } else {
        runnable(steps.drop_last())
    }
}

/// What the compositor is asked to carry out steps.
pub open spec fn requests(steps: Seq<Json>) -> Seq<Seq<char>>
    decreases steps.len(),
{
    if steps.len() == 0 {
        Seq::empty()
    } else {
        match request_for(steps.last()) {
            Some(q) => requests(steps.drop_last()).push(q),
            None => requests(steps.drop_last()),
        }
    }
}

/// The steps that a plan lists.
pub open spec fn listed_steps(plan: Json) -> Seq<Json> {
    or(list_in(field_of(plan, "steps"@)), Seq::empty())
}

/// What carrying out a plan answers.
pub open spec fn ran_json(steps: Seq<Json>) -> Json {
    Json::Object(
        no_entries().insert("ran"@, Json::Int(runnable(steps).len() as int)).insert(
            "steps"@,
            Json::List(runnable(steps)),
        ),
    )
}

/// What the compositor is asked to carry out a plan, and what is answered.
pub fn execute_plan(plan: &Value) -> (r: (Vec<String>, Value))
    ensures
        text::texts(r.0@) == requests(listed_steps(json_of(*plan))),
        json_of(r.1) == ran_json(listed_steps(json_of(*plan))),
{
    let mut asked: Vec<String> = Vec::new();
    let mut ran: Vec<Value> = Vec::new();
    let ghost all = listed_steps(json_of(*plan));
    assert(text::texts(asked@) =~= Seq::<Seq<char>>::empty());
    assert(jsons(ran@) =~= Seq::<Json>::empty());
    if let Some(v) = json::field(plan, "steps") {
        if let Some(steps) = v.as_array() {
            assert(all == jsons(steps@));
            let mut i: usize = 0;
            assert(all.take(0) =~= Seq::<Json>::empty());
            while i < steps.len()
                invariant
                    i <= steps@.len(),
                    all == jsons(steps@),
                    text::texts(asked@) == requests(all.take(i as int)),
                    jsons(ran@) == runnable(all.take(i as int)),
                decreases steps@.len() - i,
            {
                assert(all.take(i + 1).drop_last() =~= all.take(i as int));
                assert(all.take(i + 1).last() == json_of(steps@[i as int]));
                if let Some(q) = request_of(&steps[i]) {
                    let ghost was = text::texts(asked@);
                    let ghost said = q@;
                    asked.push(q);
                    assert(text::texts(asked@) =~= was.push(said));
                    self::add(&mut ran, steps[i].clone());
                }
                i += 1;
            }
            assert(all.take(i as int) =~= all);
        }
    }
    let n: u64 = ran.len() as u64;
    assert(jsons(ran@).len() == ran@.len());
    let answer = Fields::new().put("ran", json::unsigned(n)).put("steps", json::list(ran)).object();
    (asked, answer)
}

/// Every stored window with a class is accounted for: something is done for it,
/// something of it is listed as lost, or it is open where it was. A browser that
/// is not open any more has its tabs listed as lost, and nothing else is done
/// for a window without a class.
pub proof fn law_every_window_is_accounted_for(
    win: ClientRow,
    live: Seq<ClientRow>,
    m: Seq<(Seq<char>, DesktopRow)>,
)
    ensures
        win.class.len() > 0 ==> {
            ||| steps_for(win, live, m).len() > 0
            ||| losses_for(win, live, m).len() > 0
            ||| live_for(live, win) matches Some(cur) && cur.workspace == win.workspace && !win.floating
        },
        win.class.len() > 0 && live_for(live, win) is None && browses(win.class) ==> losses_for(win, live, m).contains(
            lost(win, "tabs and unsaved page state cannot be restored"@),
        ),
        win.class.len() == 0 ==> steps_for(win, live, m).len() == 0 && losses_for(win, live, m).len() == 0,
{
    if win.class.len() > 0 && live_for(live, win) is None && browses(win.class) {
        let all = losses_for(win, live, m);
        let tabs = lost(win, "tabs and unsaved page state cannot be restored"@);
        let at = if launcher(m, lower(win.class)) is None {
            1int
        } else {
            0int
        };
        assert(all[at] == tabs);
    }
}

/// What is done for a window, and what of it is lost, stands in the plan.
pub proof fn law_plan_keeps_every_finding(
    stored: Seq<ClientRow>,
    live: Seq<ClientRow>,
    m: Seq<(Seq<char>, DesktopRow)>,
    i: int,
    j: Json,
)
    requires
        0 <= i < stored.len(),
    ensures
        steps_for(stored[i], live, m).contains(j) ==> steps_of(stored, live, m).contains(j),
        losses_for(stored[i], live, m).contains(j) ==> losses_of(stored, live, m).contains(j),
    decreases stored.len(),
{
    let d = stored.drop_last();
    if i < d.len() {
        law_plan_keeps_every_finding(d, live, m, i, j);
    }
    lemma_contains_sum(steps_of(d, live, m), steps_for(stored.last(), live, m), j);
    lemma_contains_sum(losses_of(d, live, m), losses_for(stored.last(), live, m), j);
}

proof fn lemma_contains_sum(a: Seq<Json>, b: Seq<Json>, j: Json)
    ensures
        (a + b).contains(j) <==> a.contains(j) || b.contains(j),
{
    let s = a + b;
    if a.contains(j) {
        let i = choose|i: int| 0 <= i < a.len() && a[i] == j;
        assert(s[i] == j);
    }
    if b.contains(j) {
        let i = choose|i: int| 0 <= i < b.len() && b[i] == j;
        assert(s[a.len() + i] == j);
    }
    if s.contains(j) && !a.contains(j) {
        let i = choose|i: int| 0 <= i < s.len() && s[i] == j;
        if i < a.len() {
            assert(a[i] == j);
        } else {
            assert(b[i - a.len()] == j);
        }
    }
}

/// A plan launches an application that is not open.
pub fn self_test() -> (r: Result<(), String>)
    ensures
        r is Ok,
{
    let mut win = Client::default();
    win.class = "kitty".to_string();
    win.title = "zsh".to_string();
    win.workspace = "2".to_string();
    win.at = (10, 10);
    win.size = (400, 300);
    win.floating = true;
    win.mapped = true;
    let mut stored: Vec<Client> = Vec::new();
    stored.push(win);
    let live: Vec<Client> = Vec::new();
    let mut map = DesktopMap::new();
    let app = Desktop {
        id: "kitty".to_string(),
        name: "Kitty".to_string(),
        command: "kitty".to_string(),
        wm_class: "kitty".to_string(),
    };
    let ghost row = app@;
    map.insert("kitty".to_string(), app);
    proof {
        reveal_strlit("kitty");
        let wins = client_rows(stored@);
        let win = wins[0];
        assert(lower("kitty"@) =~= "kitty"@);
        assert(map@ =~= seq![("kitty"@, row)]);
        assert(known_as(map@, "kitty"@) == Some(row));
        assert(live_for(client_rows(live@), win) is None);
        assert(steps_for(win, client_rows(live@), map@) =~= seq![exec_step(row, win)]);
        assert(wins.drop_last() =~= Seq::empty());
        assert(steps_of(wins.drop_last(), client_rows(live@), map@) =~= Seq::<Json>::empty());
        reveal_strlit("steps");
        reveal_strlit("unrecoverable");
        reveal_strlit("note");
        assert(steps_of(wins, client_rows(live@), map@).len() == 1);
    }
    let plan = build(&stored, &live, &map);
    proof {
        assert("steps"@.len() != "unrecoverable"@.len() && "steps"@.len() != "note"@.len());
        let steps = steps_of(client_rows(stored@), client_rows(live@), map@);
        assert(field_of(json_of(plan), "steps"@) == Some(Json::List(steps)));
    }
    let n: usize = match json::field(&plan, "steps") {
        Some(s) => match s.as_array() {
            Some(a) => a.len(),
            None => 0,
        },
        None => 0,
    };
    if n == 0 {
        return Err("plan produced no launch step".to_string());
    }
    Ok(())
}

/// A live window has the class of a stored one, whatever the case of the letters,
/// and its title or its address.
pub open spec fn shares(l: ClientRow, win: ClientRow) -> bool {
    &&& lower(l.class) == lower(win.class)
    &&& l.title == win.title || l.address == win.address
}

proof fn lemma_live_for(live: Seq<ClientRow>, win: ClientRow)
    ensures
        match live_for(live, win) {
            Some(c) => exists|k: int|
                0 <= k < live.len() && #[trigger] live[k] == c && shares(c, win) && forall|j: int|
                    0 <= j < k ==> !shares(#[trigger] live[j], win),
            None => forall|k: int| 0 <= k < live.len() ==> !shares(#[trigger] live[k], win),
        },
    decreases live.len(),
{
    if live.len() > 0 {
        let rest = live.skip(1);
        lemma_live_for(rest, win);
        assert(forall|k: int| 0 < k < live.len() ==> live[k] == rest[k - 1]);
        if same_window(live[0], win) {
            assert(live[0] == live_for(live, win).unwrap());
        } else if live_for(rest, win) is Some {
            let c = live_for(rest, win).unwrap();
            let k = choose|k: int|
                0 <= k < rest.len() && #[trigger] rest[k] == c && shares(c, win) && forall|j: int|
                    0 <= j < k ==> !shares(#[trigger] rest[j], win);
            assert(live[k + 1] == c);
            assert forall|j: int| 0 <= j < k + 1 implies !shares(#[trigger] live[j], win) by {
                if j > 0 {
                    assert(rest[j - 1] == live[j]);
                }
            }
        }
    }
}

/// The list that a plan has under a key.
pub open spec fn plan_list(plan: Json, key: Seq<char>) -> Seq<Json> {
    match field_of(plan, key) {
        Some(Json::List(s)) => s,
        _ => Seq::empty(),
    }
}

/// What a member of a step or of a loss is: a text.
pub open spec fn says(j: Json, key: Seq<char>, text: Seq<char>) -> bool {
    field_of(j, key) == Some(Json::Text(text))
}

/// What a member of a step is: a number.
pub open spec fn counts(j: Json, key: Seq<char>, n: int) -> bool {
    field_of(j, key) == Some(Json::Int(n))
}

proof fn lemma_plan_lists(stored: Seq<ClientRow>, live: Seq<ClientRow>, m: Seq<(Seq<char>, DesktopRow)>)
    ensures
        plan_list(plan_json(stored, live, m), "steps"@) == steps_of(stored, live, m),
        plan_list(plan_json(stored, live, m), "unrecoverable"@) == losses_of(stored, live, m),
{
    reveal_strlit("steps");
    reveal_strlit("unrecoverable");
    reveal_strlit("note");
    assert("steps"@.len() != "unrecoverable"@.len() && "steps"@.len() != "note"@.len() && "unrecoverable"@.len()
        != "note"@.len());
}

proof fn lemma_one_window(win: ClientRow, live: Seq<ClientRow>, m: Seq<(Seq<char>, DesktopRow)>)
    ensures
        plan_list(plan_json(seq![win], live, m), "steps"@) == steps_for(win, live, m),
        plan_list(plan_json(seq![win], live, m), "unrecoverable"@) == losses_for(win, live, m),
{
    let one = seq![win];
    lemma_plan_lists(one, live, m);
    assert(one.drop_last() =~= Seq::<ClientRow>::empty());
    assert(steps_of(one.drop_last(), live, m) =~= Seq::<Json>::empty());
    assert(losses_of(one.drop_last(), live, m) =~= Seq::<Json>::empty());
    assert(steps_of(one, live, m) =~= steps_for(win, live, m));
    assert(losses_of(one, live, m) =~= losses_for(win, live, m));
}

proof fn lemma_keys()
    ensures
        "kind"@ != "address"@ && "kind"@ != "class"@ && "kind"@ != "title"@ && "kind"@ != "workspace"@ && "kind"@
            != "label"@ && "kind"@ != "x"@ && "kind"@ != "y"@ && "kind"@ != "w"@ && "kind"@ != "h"@ && "kind"@ != "cmd"@
            && "kind"@ != "desktop"@,
        "address"@ != "class"@ && "address"@ != "title"@ && "address"@ != "workspace"@ && "address"@ != "label"@
            && "address"@ != "x"@ && "address"@ != "y"@ && "address"@ != "w"@ && "address"@ != "h"@,
        "class"@ != "title"@ && "class"@ != "workspace"@ && "class"@ != "label"@ && "class"@ != "cmd"@ && "class"@
            != "desktop"@ && "class"@ != "reason"@,
        "title"@ != "workspace"@ && "title"@ != "label"@ && "title"@ != "cmd"@ && "title"@ != "desktop"@ && "title"@
            != "reason"@,
        "workspace"@ != "label"@ && "workspace"@ != "cmd"@ && "workspace"@ != "desktop"@,
        "cmd"@ != "desktop"@ && "cmd"@ != "label"@ && "desktop"@ != "label"@,
        "x"@ != "y"@ && "x"@ != "w"@ && "x"@ != "h"@ && "y"@ != "w"@ && "y"@ != "h"@ && "w"@ != "h"@,
        "x"@ != "label"@ && "y"@ != "label"@ && "w"@ != "label"@ && "h"@ != "label"@,
        "exec"@ != "move"@ && "exec"@ != "geometry"@ && "move"@ != "geometry"@,
{
    reveal_strlit("kind");
    reveal_strlit("address");
    reveal_strlit("class");
    reveal_strlit("title");
    reveal_strlit("workspace");
    reveal_strlit("label");
    reveal_strlit("x");
    reveal_strlit("y");
    reveal_strlit("w");
    reveal_strlit("h");
    reveal_strlit("cmd");
    reveal_strlit("desktop");
    reveal_strlit("reason");
    reveal_strlit("exec");
    reveal_strlit("move");
    reveal_strlit("geometry");
    assert("class"@[0] == 'c' && "title"@[0] == 't' && "label"@[0] == 'l');
    assert("exec"@[0] == 'e' && "move"@[0] == 'm');
    assert("address"@[0] == 'a' && "desktop"@[0] == 'd');
    assert("x"@[0] == 'x' && "y"@[0] == 'y' && "w"@[0] == 'w' && "h"@[0] == 'h');
    assert("reason"@.len() == 6 && "kind"@.len() == 4 && "cmd"@.len() == 3 && "workspace"@.len() == 9);
}

/// A stored window that is still open, as its class and its title or its address
/// tell, is not launched again, and neither its desktop file nor its tabs are
/// listed as lost. It is moved to its workspace, by its present address, exactly
/// where it is on another one, and put in its place exactly where it floats.
pub proof fn law_an_open_window_is_moved_and_not_launched(
    win: ClientRow,
    live: Seq<ClientRow>,
    m: Seq<(Seq<char>, DesktopRow)>,
    k: int,
)
    requires
        win.class.len() > 0,
        0 <= k < live.len(),
        lower(live[k].class) == lower(win.class),
        live[k].title == win.title || live[k].address == win.address,
        forall|j: int|
            0 <= j < k && lower((#[trigger] live[j]).class) == lower(win.class) ==> live[j].title != win.title
                && live[j].address != win.address,
    ensures
        ({
            let steps = plan_list(plan_json(seq![win], live, m), "steps"@);
            let losses = plan_list(plan_json(seq![win], live, m), "unrecoverable"@);
            &&& forall|i: int| 0 <= i < steps.len() ==> !says(#[trigger] steps[i], "kind"@, "exec"@)
            &&& forall|i: int|
                0 <= i < losses.len() ==> says(
                    #[trigger] losses[i],
                    "reason"@,
                    "unsaved document state is not in the snapshot"@,
                )
            &&& live[k].workspace != win.workspace <==> exists|i: int|
                0 <= i < steps.len() && says(#[trigger] steps[i], "kind"@, "move"@)
            &&& forall|i: int|
                0 <= i < steps.len() && says(#[trigger] steps[i], "kind"@, "move"@) ==> says(
                    steps[i],
                    "address"@,
                    live[k].address,
                ) && counts(steps[i], "workspace"@, workspace_number(win.workspace))
            &&& win.floating <==> exists|i: int|
                0 <= i < steps.len() && says(#[trigger] steps[i], "kind"@, "geometry"@)
            &&& forall|i: int|
                0 <= i < steps.len() && says(#[trigger] steps[i], "kind"@, "geometry"@) ==> {
                    &&& says(steps[i], "address"@, live[k].address)
                    &&& counts(steps[i], "x"@, win.at.0 as int)
                    &&& counts(steps[i], "y"@, win.at.1 as int)
                    &&& counts(steps[i], "w"@, win.size.0 as int)
                    &&& counts(steps[i], "h"@, win.size.1 as int)
                }
        }),
{
    lemma_one_window(win, live, m);
    lemma_live_for(live, win);
    lemma_keys();
    let steps = steps_for(win, live, m);
    let losses = losses_for(win, live, m);
    assert(shares(live[k], win));
    assert forall|j: int| 0 <= j < k implies !shares(#[trigger] live[j], win) by {}
    assert(live_for(live, win) == Some(live[k]));
    let cur = live[k];
    if cur.workspace != win.workspace {
        assert(steps[0] == move_step(cur, win));
        assert(says(steps[0], "kind"@, "move"@));
        if win.floating {
            assert(steps[1] == geometry_step(cur, win));
            assert(says(steps[1], "kind"@, "geometry"@));
        }
    } else if win.floating {
        assert(steps[0] == geometry_step(cur, win));
        assert(says(steps[0], "kind"@, "geometry"@));
    }
}

/// A stored window that is not open any more is neither moved nor placed. It is
/// launched exactly where an application is known for its class, by that
/// application's command and on the workspace of the window; else the plan says
/// that there is no desktop file.
pub proof fn law_a_closed_window_is_launched(
    win: ClientRow,
    live: Seq<ClientRow>,
    m: Seq<(Seq<char>, DesktopRow)>,
)
    requires
        win.class.len() > 0,
        forall|j: int|
            0 <= j < live.len() && lower((#[trigger] live[j]).class) == lower(win.class) ==> live[j].title != win.title
                && live[j].address != win.address,
    ensures
        ({
            let steps = plan_list(plan_json(seq![win], live, m), "steps"@);
            let losses = plan_list(plan_json(seq![win], live, m), "unrecoverable"@);
            let known = exists|i: int|
                0 <= i < m.len() && (occurs(lower(win.class), (#[trigger] m[i]).0) || occurs(m[i].0, lower(win.class)));
            &&& known <==> steps.len() == 1
            &&& !known <==> steps.len() == 0
            &&& forall|i: int|
                0 <= i < steps.len() ==> {
                    &&& says(#[trigger] steps[i], "kind"@, "exec"@)
                    &&& counts(steps[i], "workspace"@, workspace_number(win.workspace))
                    &&& exists|j: int|
                        0 <= j < m.len() && says(steps[i], "cmd"@, (#[trigger] m[j]).1.command) && (occurs(
                            lower(win.class),
                            m[j].0,
                        ) || occurs(m[j].0, lower(win.class)))
                }
            &&& forall|i: int|
                0 <= i < m.len() && (#[trigger] m[i]).0 == lower(win.class) && (forall|j: int|
                    0 <= j < i ==> (#[trigger] m[j]).0 != lower(win.class)) ==> steps.len() == 1 && says(
                    steps[0],
                    "cmd"@,
                    m[i].1.command,
                )
            &&& !known <==> losses.contains(lost(win, "no desktop file for this class"@))
            &&& browses(win.class) <==> losses.contains(lost(win, "tabs and unsaved page state cannot be restored"@))
        }),
{
    lemma_one_window(win, live, m);
    lemma_live_for(live, win);
    lemma_keys();
    let key = lower(win.class);
    lemma_launcher(m, key);
    let steps = steps_for(win, live, m);
    let losses = losses_for(win, live, m);
    assert(live_for(live, win) is None) by {
        if live_for(live, win) is Some {
            let c = live_for(live, win).unwrap();
            let k = choose|k: int| 0 <= k < live.len() && #[trigger] live[k] == c && shares(c, win);
            assert(lower(live[k].class) == lower(win.class));
        }
    }
    reveal_strlit("no desktop file for this class");
    reveal_strlit("tabs and unsaved page state cannot be restored");
    reveal_strlit("unsaved document state is not in the snapshot");
    let a = "no desktop file for this class"@;
    let b = "tabs and unsaved page state cannot be restored"@;
    let c = "unsaved document state is not in the snapshot"@;
    assert(a.len() != b.len() && a.len() != c.len() && b.len() != c.len());
    assert(lost(win, a) != lost(win, b) && lost(win, a) != lost(win, c) && lost(win, b) != lost(win, c)) by {
        assert(says(lost(win, a), "reason"@, a));
        assert(says(lost(win, b), "reason"@, b));
        assert(says(lost(win, c), "reason"@, c));
    }
    if launcher(m, key) is None {
        assert(losses[0] == lost(win, a));
        if browses(win.class) {
            assert(losses[1] == lost(win, b));
        }
    } else if browses(win.class) {
        assert(losses[0] == lost(win, b));
    }
    if steps.len() == 1 {
        assert(steps[0] == exec_step(launcher(m, key).unwrap(), win));
    }
}

proof fn lemma_launcher(m: Seq<(Seq<char>, DesktopRow)>, key: Seq<char>)
    ensures
        launcher(m, key) is Some <==> exists|i: int|
            0 <= i < m.len() && (occurs(key, (#[trigger] m[i]).0) || occurs(m[i].0, key)),
        launcher(m, key) matches Some(d) ==> exists|i: int|
            0 <= i < m.len() && (#[trigger] m[i]).1 == d && (occurs(key, m[i].0) || occurs(m[i].0, key)),
        forall|i: int|
            0 <= i < m.len() && (#[trigger] m[i]).0 == key && (forall|j: int|
                0 <= j < i ==> (#[trigger] m[j]).0 != key) ==> launcher(m, key) == Some(m[i].1),
{
    lemma_known_as(m, key);
    lemma_akin_to(m, key);
    assert(occurs(key, key)) by {
        assert(key.subrange(0, key.len() as int) =~= key);
        assert(text::occurs_at(key, key, 0));
    }
}

proof fn lemma_known_as(m: Seq<(Seq<char>, DesktopRow)>, key: Seq<char>)
    ensures
        match known_as(m, key) {
            Some(d) => exists|i: int|
                0 <= i < m.len() && (#[trigger] m[i]).0 == key && m[i].1 == d && forall|j: int|
                    0 <= j < i ==> (#[trigger] m[j]).0 != key,
            None => forall|i: int| 0 <= i < m.len() ==> (#[trigger] m[i]).0 != key,
        },
    decreases m.len(),
{
    if m.len() > 0 {
        let rest = m.skip(1);
        lemma_known_as(rest, key);
        assert(forall|i: int| 0 < i < m.len() ==> m[i] == rest[i - 1]);
        if m[0].0 != key && known_as(rest, key) is Some {
            let d = known_as(rest, key).unwrap();
            let i = choose|i: int|
                0 <= i < rest.len() && (#[trigger] rest[i]).0 == key && rest[i].1 == d && forall|j: int|
                    0 <= j < i ==> (#[trigger] rest[j]).0 != key;
            assert(m[i + 1] == rest[i]);
            assert forall|j: int| 0 <= j < i + 1 implies (#[trigger] m[j]).0 != key by {
                if j > 0 {
                    assert(rest[j - 1] == m[j]);
                }
            }
        }
    }
}

proof fn lemma_akin_to(m: Seq<(Seq<char>, DesktopRow)>, key: Seq<char>)
    ensures
        match akin_to(m, key) {
            Some(d) => exists|i: int|
                0 <= i < m.len() && (#[trigger] m[i]).1 == d && (occurs(key, m[i].0) || occurs(m[i].0, key)),
            None => forall|i: int| 0 <= i < m.len() ==> !occurs(key, (#[trigger] m[i]).0) && !occurs(m[i].0, key),
        },
    decreases m.len(),
{
    if m.len() > 0 {
        let rest = m.skip(1);
        lemma_akin_to(rest, key);
        assert(forall|i: int| 0 < i < m.len() ==> m[i] == rest[i - 1]);
        if !occurs(key, m[0].0) && !occurs(m[0].0, key) && akin_to(rest, key) is Some {
            let d = akin_to(rest, key).unwrap();
            let i = choose|i: int|
                0 <= i < rest.len() && (#[trigger] rest[i]).1 == d && (occurs(key, rest[i].0) || occurs(rest[i].0, key));
            assert(m[i + 1] == rest[i]);
        }
    }
}

/// A plan for several windows is what the plans for each of them are, one after
/// the other.
pub proof fn law_plans_follow_one_another(
    a: Seq<ClientRow>,
    b: Seq<ClientRow>,
    live: Seq<ClientRow>,
    m: Seq<(Seq<char>, DesktopRow)>,
)
    ensures
        plan_list(plan_json(a + b, live, m), "steps"@) == plan_list(plan_json(a, live, m), "steps"@) + plan_list(
            plan_json(b, live, m),
            "steps"@,
        ),
        plan_list(plan_json(a + b, live, m), "unrecoverable"@) == plan_list(
            plan_json(a, live, m),
            "unrecoverable"@,
        ) + plan_list(plan_json(b, live, m), "unrecoverable"@),
    decreases b.len(),
{
    lemma_plan_lists(a, live, m);
    lemma_plan_lists(b, live, m);
    lemma_plan_lists(a + b, live, m);
    if b.len() == 0 {
        assert(a + b =~= a);
        assert(steps_of(a, live, m) + steps_of(b, live, m) =~= steps_of(a, live, m));
        assert(losses_of(a, live, m) + losses_of(b, live, m) =~= losses_of(a, live, m));
    } else {
        let d = b.drop_last();
        law_plans_follow_one_another(a, d, live, m);
        lemma_plan_lists(d, live, m);
        lemma_plan_lists(a + d, live, m);
        assert((a + b).drop_last() =~= a + d);
        assert((a + b).last() == b.last());
        assert(steps_of(a + b, live, m) =~= steps_of(a, live, m) + steps_of(b, live, m));
        assert(losses_of(a + b, live, m) =~= losses_of(a, live, m) + losses_of(b, live, m));
    }
}

/// What a plan has for a window is what the compositor is asked: to move the window
/// to its workspace, to put it in its place, and to launch its application on the
/// workspace without taking the focus.
pub proof fn law_steps_are_carried_out(cur: ClientRow, win: ClientRow, d: DesktopRow)
    ensures
        request_for(move_step(cur, win)) == Some(
            "movetoworkspacesilent "@ + decimal(workspace_number(win.workspace)) + ",address:"@ + cur.address,
        ),
        request_for(geometry_step(cur, win)) == Some(
            "movewindowpixel exact "@ + decimal(win.at.0 as int) + " "@ + decimal(win.at.1 as int) + ",address:"@
                + cur.address,
        ),
        request_for(exec_step(d, win)) == Some(
            "exec [workspace "@ + decimal(workspace_number(win.workspace)) + " silent] "@ + d.command,
        ),
        win.workspace.len() > 0 ==> (number_in(win.workspace) matches Some(n) ==> (i64::MIN <= n <= i64::MAX
            ==> workspace_number(win.workspace) == n)),
        number_in(win.workspace) is None ==> workspace_number(win.workspace) == 1,
{
    lemma_keys();
}

/// A step that is not of a known kind, or lacks what its kind needs, is passed
/// over.
pub proof fn law_incomplete_steps_are_passed_over(step: Json)
    ensures
        request_for(step) is Some ==> says(step, "kind"@, "exec"@) || says(step, "kind"@, "move"@) || says(
            step,
            "kind"@,
            "geometry"@,
        ),
        says(step, "kind"@, "exec"@) && field_of(step, "cmd"@) is None ==> request_for(step) is None,
        says(step, "kind"@, "move"@) && (field_of(step, "address"@) is None || field_of(step, "workspace"@) is None)
            ==> request_for(step) is None,
        says(step, "kind"@, "geometry"@) && (field_of(step, "address"@) is None || field_of(step, "x"@) is None
            || field_of(step, "y"@) is None) ==> request_for(step) is None,
        field_of(step, "kind"@) is None ==> request_for(step) is None,
{
    lemma_keys();
    reveal_strlit("");
    reveal_strlit("exec");
    reveal_strlit("move");
    reveal_strlit("geometry");
    assert(""@.len() == 0 && "exec"@.len() == 4 && "move"@.len() == 4 && "geometry"@.len() == 8);
}

/// Carrying out a plan asks the compositor for every step that can be carried
/// out, in the order of the plan, and tells these and how many they are.
pub proof fn law_every_step_is_carried_out(steps: Seq<Json>, more: Seq<Json>, step: Json)
    ensures
        requests(steps + more) == requests(steps) + requests(more),
        runnable(steps + more) == runnable(steps) + runnable(more),
        request_for(step) matches Some(q) ==> requests(seq![step]) == seq![q] && runnable(seq![step]) == seq![step],
        request_for(step) is None ==> requests(seq![step]).len() == 0 && runnable(seq![step]).len() == 0,
        field_of(ran_json(steps), "ran"@) == Some(Json::Int(requests(steps).len() as int)),
        field_of(ran_json(steps), "steps"@) == Some(Json::List(runnable(steps))),
{
    lemma_requests_both(steps, more);
    let one = seq![step];
    assert(one.drop_last() =~= Seq::<Json>::empty());
    assert(requests(one.drop_last()) =~= Seq::<Seq<char>>::empty());
    assert(runnable(one.drop_last()) =~= Seq::<Json>::empty());
    if request_for(step) is Some {
        assert(requests(one) =~= seq![request_for(step).unwrap()]);
        assert(runnable(one) =~= one);
    }
    lemma_as_many(steps);
    reveal_strlit("ran");
    reveal_strlit("steps");
    assert("ran"@.len() != "steps"@.len());
}

proof fn lemma_as_many(steps: Seq<Json>)
    ensures
        requests(steps).len() == runnable(steps).len(),
    decreases steps.len(),
{
    if steps.len() > 0 {
        lemma_as_many(steps.drop_last());
    }
}

proof fn lemma_requests_both(a: Seq<Json>, b: Seq<Json>)
    ensures
        requests(a + b) == requests(a) + requests(b),
        runnable(a + b) == runnable(a) + runnable(b),
    decreases b.len(),
{
    if b.len() == 0 {
        assert(a + b =~= a);
        assert(requests(a) + requests(b) =~= requests(a));
        assert(runnable(a) + runnable(b) =~= runnable(a));
    } else {
        lemma_requests_both(a, b.drop_last());
        assert((a + b).drop_last() =~= a + b.drop_last());
        assert((a + b).last() == b.last());
        assert(requests(a + b) =~= requests(a) + requests(b));
        assert(runnable(a + b) =~= runnable(a) + runnable(b));
    }
}

/// The commands of desktop files are kept without their placeholders, and with
/// all of their other words in their order.
pub proof fn law_placeholders_are_left_out(a: Seq<Seq<char>>, w: Seq<char>, b: Seq<Seq<char>>)
    ensures
        plain_words(a + b) == plain_words(a) + plain_words(b),
        w.len() > 0 && w[0] == '%' ==> plain_words(seq![w]).len() == 0,
        w.len() == 0 || w[0] != '%' ==> plain_words(seq![w]) == seq![w],
{
    lemma_plain_both(a, b);
    let one = seq![w];
    assert(one.drop_last() =~= Seq::<Seq<char>>::empty());
    assert(plain_words(one.drop_last()) =~= Seq::<Seq<char>>::empty());
    if w.len() == 0 || w[0] != '%' {
        assert(plain_words(one) =~= one);
    }
}

proof fn lemma_plain_both(a: Seq<Seq<char>>, b: Seq<Seq<char>>)
    ensures
        plain_words(a + b) == plain_words(a) + plain_words(b),
    decreases b.len(),
{
    if b.len() == 0 {
        assert(a + b =~= a);
        assert(plain_words(a) + plain_words(b) =~= plain_words(a));
    } else {
        lemma_plain_both(a, b.drop_last());
        assert((a + b).drop_last() =~= a + b.drop_last());
        assert((a + b).last() == b.last());
        assert(plain_words(a + b) =~= plain_words(a) + plain_words(b));
    }
}

/// A line `key=value` of a desktop file counts within its section alone: the first
/// name and the first command, and the last class. Comments, empty lines and other
/// keys change nothing.
pub proof fn law_a_desktop_file_is_read(r: Reading, key: Seq<char>, value: Seq<char>)
    requires
        !key.contains('='),
        key.len() > 0,
        key[0] != '[',
        key[0] != '#',
        trim(key) == key,
        trim(key.push('=') + value) == key.push('=') + value,
    ensures
        ({
            let n = read_line(r, key.push('=') + value);
            &&& n.inside == r.inside
            &&& !r.inside ==> n == r
            &&& r.inside && key == "Name"@ ==> n.command == r.command && n.wm_class == r.wm_class && n.name == (
            if r.name.len() == 0 {
                trim(value)
            } else {
                r.name
            })
            &&& r.inside && key == "Exec"@ ==> n.name == r.name && n.wm_class == r.wm_class && n.command == (
            if r.command.len() == 0 {
                joined(plain_words(words(trim(value))), " "@)
            } else {
                r.command
            })
            &&& r.inside && key == "StartupWMClass"@ ==> n.name == r.name && n.command == r.command && n.wm_class == trim(
                value,
            )
            &&& key != "Name"@ && key != "Exec"@ && key != "StartupWMClass"@ ==> n == r
        }),
{
    let line = key.push('=') + value;
    assert(line[key.len() as int] == '=');
    assert(line.contains('='));
    line.index_of_first_ensures('=');
    let i = line.index_of_first('=').unwrap();
    assert(i == key.len()) by {
        if i < key.len() {
            assert(key[i] == '=');
            assert(key.contains('='));
        }
    }
    assert(line.take(i) =~= key);
    assert(line.skip(i + 1) =~= value);
    reveal_strlit("Name");
    reveal_strlit("Exec");
    reveal_strlit("StartupWMClass");
    assert("Name"@[0] != "Exec"@[0] && "Name"@.len() != "StartupWMClass"@.len());
}

/// A line in brackets begins a section, and only the one for desktop entries is
/// read; comments and empty lines are passed over.
pub proof fn law_sections_of_a_desktop_file(r: Reading, line: Seq<char>, ls: Seq<Seq<char>>)
    ensures
        trim(line).len() > 0 && trim(line)[0] == '[' ==> read_line(r, line) == (Reading {
            inside: lower(trim(line)) == "[desktop entry]"@,
            ..r
        }),
        trim(line).len() == 0 ==> read_line(r, line) == r,
        trim(line).len() > 0 && trim(line)[0] == '#' ==> read_line(r, line) == r,
        !r.inside && !(trim(line).len() > 0 && trim(line)[0] == '[') ==> read_line(r, line) == r,
        read_lines(ls.push(line)) == read_line(read_lines(ls), line),
        read_lines(Seq::<Seq<char>>::empty()) == (Reading {
            inside: false,
            name: Seq::empty(),
            command: Seq::empty(),
            wm_class: Seq::empty(),
        }),
{
    reveal_strlit("[desktop entry]");
    assert(lower("[desktop entry]"@) =~= "[desktop entry]"@);
    assert(ls.push(line).drop_last() =~= ls);
}

/// An application is known by its class and by its file from then on, in place of
/// what was known by that name, and by the others nothing changes.
pub proof fn law_applications_are_known_by_name(m: Seq<(Seq<char>, DesktopRow)>, key: Seq<char>, d: DesktopRow, other: Seq<char>)
    ensures
        known_as(renamed(m, key, d), key) == Some(d),
        other != key ==> known_as(renamed(m, key, d), other) == known_as(m, other),
        known_as(m, key) is Some ==> named_if_free(m, key, d) == m,
        known_as(m, key) is None ==> known_as(named_if_free(m, key, d), key) == Some(d),
    decreases m.len(),
{
    let r = renamed(m, key, d);
    if m.len() > 0 {
        law_applications_are_known_by_name(m.skip(1), key, d, other);
        if m[0].0 == key {
            assert(r.skip(1) =~= m.skip(1));
        } else {
            assert(r.skip(1) =~= renamed(m.skip(1), key, d));
            assert(r[0] == m[0]);
        }
    } else {
        assert(r.skip(1) =~= Seq::<(Seq<char>, DesktopRow)>::empty());
        assert(known_as(r.skip(1), other) is None);
    }
}

/// A desktop file makes its application known by its class, where it names one,
/// and by its own name, whatever the case of their letters.
pub proof fn law_a_desktop_file_is_known(m: Seq<(Seq<char>, DesktopRow)>, stem: Seq<char>, raw: Seq<char>)
    ensures
        desktop_in(stem, raw) is None ==> with_file(m, Some(stem), raw) == m,
        desktop_in(stem, raw) matches Some(d) ==> {
            &&& d.id == stem
            &&& known_as(with_file(m, Some(stem), raw), lower(stem)) == Some(d)
            &&& d.wm_class.len() > 0 ==> known_as(with_file(m, Some(stem), raw), lower(d.wm_class)) == Some(d)
        },
{
    if let Some(d) = desktop_in(stem, raw) {
        let a = if d.wm_class.len() > 0 {
            renamed(m, lower(d.wm_class), d)
        } else {
            m
        };
        law_applications_are_known_by_name(m, lower(d.wm_class), d, lower(d.id));
        law_applications_are_known_by_name(a, lower(d.id), d, lower(d.wm_class));
        law_applications_are_known_by_name(renamed(a, lower(d.id), d), lower(stem), d, lower(d.wm_class));
    }
}

/// A class is that of a browser exactly where it has the name of one in it,
/// whatever the case of the letters; and a title tells of something unsaved where
/// it says so.
pub proof fn law_browsers_and_unsaved_titles(win: ClientRow)
    ensures
        browses(win.class) <==> occurs(lower(win.class), "firefox"@) || occurs(lower(win.class), "chrome"@) || occurs(
            lower(win.class),
            "chromium"@,
        ) || occurs(lower(win.class), "brave"@) || occurs(lower(win.class), "librewolf"@) || occurs(
            lower(win.class),
            "vivaldi"@,
        ),
        unsaved(win) <==> occurs(lower(win.title), "untitled"@) || occurs(lower(win.title), "unsaved"@),
{
}

/// What a plan lists as lost of a window names the window and why; unsaved work
/// is listed wherever the title tells of it, whether the window is open or not.
pub proof fn law_unsaved_work_is_listed(win: ClientRow, live: Seq<ClientRow>, m: Seq<(Seq<char>, DesktopRow)>, reason: Seq<char>)
    requires
        win.class.len() > 0,
    ensures
        says(lost(win, reason), "class"@, win.class),
        says(lost(win, reason), "title"@, win.title),
        says(lost(win, reason), "reason"@, reason),
        occurs(lower(win.title), "untitled"@) || occurs(lower(win.title), "unsaved"@) <==> plan_list(
            plan_json(seq![win], live, m),
            "unrecoverable"@,
        ).contains(lost(win, "unsaved document state is not in the snapshot"@)),
{
    lemma_keys();
    lemma_one_window(win, live, m);
    reveal_strlit("no desktop file for this class");
    reveal_strlit("tabs and unsaved page state cannot be restored");
    reveal_strlit("unsaved document state is not in the snapshot");
    let a = "no desktop file for this class"@;
    let b = "tabs and unsaved page state cannot be restored"@;
    let c = "unsaved document state is not in the snapshot"@;
    assert(a.len() != c.len() && b.len() != c.len());
    assert(lost(win, a) != lost(win, c) && lost(win, b) != lost(win, c)) by {
        assert(says(lost(win, a), "reason"@, a));
        assert(says(lost(win, b), "reason"@, b));
        assert(says(lost(win, c), "reason"@, c));
    }
    let losses = losses_for(win, live, m);
    if unsaved(win) {
        assert(losses[losses.len() - 1] == lost(win, c));
    }
}

/// The directories of desktop files: the user's own first, then the two of the
/// system, then those of the list that are not empty, in its order.
pub proof fn law_directories(home: Seq<char>, list: Seq<Seq<char>>)
    requires
        list.len() > 0,
        forall|i: int| 0 <= i < list.len() ==> !(#[trigger] list[i]).contains(':') && list[i].len() > 0,
    ensures
        application_paths(Some(home), Some(joined(list, seq![':']))) == seq![
            joined_path(home, ".local/share/applications"@),
            "/usr/share/applications"@,
            "/usr/local/share/applications"@,
        ] + list,
        application_paths(None, None) == seq!["/usr/share/applications"@, "/usr/local/share/applications"@],
{
    text::law_joined_texts_are_the_pieces(list, ':');
    let keep = |p: Seq<char>| p.len() > 0;
    lemma_all_kept(list);
    assert(listed(joined(list, seq![':'])) == list);
    assert(application_paths(Some(home), Some(joined(list, seq![':']))) =~= seq![
        joined_path(home, ".local/share/applications"@),
        "/usr/share/applications"@,
        "/usr/local/share/applications"@,
    ] + list);
    assert(application_paths(None, None) =~= seq!["/usr/share/applications"@, "/usr/local/share/applications"@]);
}

proof fn lemma_all_kept(list: Seq<Seq<char>>)
    requires
        forall|i: int| 0 <= i < list.len() ==> (#[trigger] list[i]).len() > 0,
    ensures
        list.filter(|p: Seq<char>| p.len() > 0) == list,
    decreases list.len(),
{
    reveal(Seq::filter);
    let keep = |p: Seq<char>| p.len() > 0;
    if list.len() > 0 {
        let d = list.drop_last();
        assert forall|i: int| 0 <= i < d.len() implies (#[trigger] d[i]).len() > 0 by {
            assert(d[i] == list[i]);
        }
        lemma_all_kept(d);
        assert(keep(list[list.len() - 1]));
        assert(d.push(list.last()) =~= list);
    } else {
        assert(list.filter(keep) =~= list);
    }
}

/// A desktop file describes an application exactly where its lines give a command,
/// and then by the name, the command and the class that they give, under its own
/// name.
pub proof fn law_what_a_desktop_file_describes(id: Seq<char>, raw: Seq<char>)
    ensures
        desktop_in(id, raw) is Some <==> read_lines(lines(raw)).command.len() > 0,
        desktop_in(id, raw) matches Some(d) ==> d.id == id && d.name == read_lines(lines(raw)).name && d.command
            == read_lines(lines(raw)).command && d.wm_class == read_lines(lines(raw)).wm_class,
{
}

/// An application is launched by the name that is asked for where it is known;
/// else by the first known name that is part of it or that it is part of; and
/// where there is none, not at all.
pub proof fn law_which_application_is_launched(m: Seq<(Seq<char>, DesktopRow)>, key: Seq<char>, i: int)
    ensures
        known_as(m, key) is Some ==> launcher(m, key) == known_as(m, key),
        known_as(m, key) is None && 0 <= i < m.len() && (occurs(key, m[i].0) || occurs(m[i].0, key)) && (forall|j: int|
            0 <= j < i ==> !occurs(key, (#[trigger] m[j]).0) && !occurs(m[j].0, key)) ==> launcher(m, key) == Some(m[i].1),
        (forall|j: int| 0 <= j < m.len() ==> !occurs(key, (#[trigger] m[j]).0) && !occurs(m[j].0, key) && m[j].0 != key)
            ==> launcher(m, key) is None,
    decreases m.len(),
{
    if m.len() > 0 {
        let rest = m.skip(1);
        assert forall|j: int| 0 <= j < rest.len() implies #[trigger] rest[j] == m[j + 1] by {}
        law_which_application_is_launched(rest, key, i - 1);
        if forall|j: int| 0 <= j < m.len() ==> !occurs(key, (#[trigger] m[j]).0) && !occurs(m[j].0, key) && m[j].0 != key {
            assert(m[0].0 != key && !occurs(key, m[0].0) && !occurs(m[0].0, key));
            assert forall|j: int| 0 <= j < rest.len() implies !occurs(key, (#[trigger] rest[j]).0) && !occurs(
                rest[j].0,
                key,
            ) && rest[j].0 != key by {
                assert(rest[j] == m[j + 1]);
            }
        }
        if 0 < i < m.len() && (forall|j: int|
            0 <= j < i ==> !occurs(key, (#[trigger] m[j]).0) && !occurs(m[j].0, key)) {
            assert(!occurs(key, m[0].0) && !occurs(m[0].0, key));
            assert forall|j: int| 0 <= j < i - 1 implies !occurs(key, (#[trigger] rest[j]).0) && !occurs(
                rest[j].0,
                key,
            ) by {
                assert(rest[j] == m[j + 1]);
            }
        }
    }
}

/// The steps of a plan are the list under that name, and none where there is no
/// such list.
pub proof fn law_the_steps_of_a_plan(plan: Json, steps: Seq<Json>)
    ensures
        field_of(plan, "steps"@) == Some(Json::List(steps)) ==> listed_steps(plan) == steps,
        field_of(plan, "steps"@) is None ==> listed_steps(plan).len() == 0,
{
}

} // verus!
