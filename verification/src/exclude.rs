//! Windows that must not be recorded.
use crate::hypr::{client_rows, Client, ClientRow};
use crate::text::{self, lower, occurs, texts};
use vstd::prelude::*;

verus! {

/// A window that looks like private browsing.
#[derive(Debug, Clone, PartialEq, Eq)]
pub struct PrivateHit {
    pub class: String,
    pub title: String,
    pub marker: String,
    /// The finding rests on the words of a title.
    pub heuristic: bool,
}

/// What a window that looks like private browsing says.
pub struct PrivateRow {
    pub class: Seq<char>,
    pub title: Seq<char>,
    pub marker: Seq<char>,
    pub heuristic: bool,
}

impl View for PrivateHit {
    type V = PrivateRow;

    open spec fn view(&self) -> PrivateRow {
        PrivateRow { class: self.class@, title: self.title@, marker: self.marker@, heuristic: self.heuristic }
    }
}

/// A class and an exclusion are about the same application: one stands in the
/// other, whatever the case of their letters.
pub open spec fn same_app(class: Seq<char>, exclusion: Seq<char>) -> bool {
    let c = lower(class);
    let e = lower(exclusion);
    e.len() > 0 && (c == e || occurs(c, e) || occurs(e, c))
}

/// A class is excluded.
pub open spec fn class_excluded(class: Seq<char>, exclude: Seq<Seq<char>>) -> bool {
    exists|i: int| 0 <= i < exclude.len() && same_app(class, #[trigger] exclude[i])
}

/// A class is excluded.
pub fn matches_class(class: &str, exclude: &Vec<String>) -> (r: bool)
    ensures
        r == class_excluded(class@, texts(exclude@)),
{
    let c = text::to_lower(class);
    let ghost all = texts(exclude@);
    let mut i: usize = 0;
    while i < exclude.len()
        invariant
            i <= exclude@.len(),
            all == texts(exclude@),
            c@ == lower(class@),
            forall|j: int| 0 <= j < i ==> !same_app(class@, #[trigger] all[j]),
        decreases exclude@.len() - i,
    {
        let e = text::to_lower(exclude[i].as_str());
        assert(all[i as int] == exclude@[i as int]@);
        proof {
            crate::lookup::lemma_bytes_in(e@);
        }
        if text::byte_len(e.as_str()) > 0 && (text::same(c.as_str(), e.as_str()) || text::has(c.as_str(), e.as_str())
            || text::has(e.as_str(), c.as_str())) {
            assert(same_app(class@, all[i as int]));
            return true;
        }
        i += 1;
    }
    false
}

/// A window can be seen.
pub open spec fn visible(c: ClientRow) -> bool {
    c.mapped && !c.hidden
}

/// A window can be seen.
pub fn client_visible(c: &Client) -> (r: bool)
    ensures
        r == visible(c@),
{
    c.mapped && !c.hidden
}

/// The class of the first window that can be seen, on any output, and is
/// excluded.
pub open spec fn excluded_in(clients: Seq<ClientRow>, exclude: Seq<Seq<char>>) -> Option<Seq<char>>
    decreases clients.len(),
{
    if clients.len() == 0 {
        None
    } else if visible(clients[0]) && class_excluded(clients[0].class, exclude) {
        Some(clients[0].class)
    } else {
        excluded_in(clients.skip(1), exclude)
    }
}

/// The class of the first window that can be seen, on any output, and is
/// excluded.
pub fn excluded_visible(clients: &Vec<Client>, exclude: &Vec<String>) -> (r: Option<String>)
    ensures
        match excluded_in(client_rows(clients@), texts(exclude@)) {
            Some(c) => r matches Some(s) && s@ == c,
            None => r is None,
        },
{
    let ghost all = client_rows(clients@);
    let ghost ex = texts(exclude@);
    let mut i: usize = 0;
    assert(all.skip(0) =~= all);
    while i < clients.len()
        invariant
            i <= clients@.len(),
            all == client_rows(clients@),
            ex == texts(exclude@),
            excluded_in(all, ex) == excluded_in(all.skip(i as int), ex),
        decreases clients@.len() - i,
    {
        assert(all.skip(i as int).skip(1) =~= all.skip(i + 1));
        assert(all.skip(i as int)[0] == clients@[i as int]@);
        if client_visible(&clients[i]) && matches_class(clients[i].class.as_str(), exclude) {
            return Some(clients[i].class.clone());
        }
        i += 1;
    }
    None
}

/// The words in the titles of private windows, by browser.
pub open spec fn markers() -> Seq<(Seq<char>, Seq<char>)> {
    seq![
        ("firefox"@, "(Private Browsing)"@),
        ("firefox"@, "Private Browsing"@),
        ("librewolf"@, "Private Browsing"@),
        ("google-chrome"@, "Incognito"@),
        ("google-chrome"@, "(Incognito)"@),
        ("chromium"@, "Incognito"@),
        ("chromium"@, "(Incognito)"@),
        ("chrome"@, "Incognito"@),
        ("brave-browser"@, "Private"@),
        ("brave"@, "Private Window"@),
        ("brave"@, "Private"@),
    ]
}

/// What a list of markers says.
pub open spec fn marker_rows(v: Seq<(&'static str, &'static str)>) -> Seq<(Seq<char>, Seq<char>)> {
    v.map_values(|m: (&'static str, &'static str)| (m.0@, m.1@))
}

/// The words in the titles of private windows, by browser. They are a heuristic.
pub fn private_markers() -> (r: Vec<(&'static str, &'static str)>)
    ensures
        marker_rows(r@) == markers(),
{
    let mut v: Vec<(&'static str, &'static str)> = Vec::new();
    v.push(("firefox", "(Private Browsing)"));
    v.push(("firefox", "Private Browsing"));
    v.push(("librewolf", "Private Browsing"));
    v.push(("google-chrome", "Incognito"));
    v.push(("google-chrome", "(Incognito)"));
    v.push(("chromium", "Incognito"));
    v.push(("chromium", "(Incognito)"));
    v.push(("chrome", "Incognito"));
    v.push(("brave-browser", "Private"));
    v.push(("brave", "Private Window"));
    v.push(("brave", "Private"));
    assert(marker_rows(v@) =~= markers());
    v
}

/// The first marker of a list that a window bears.
pub open spec fn marker_on(c: ClientRow, list: Seq<(Seq<char>, Seq<char>)>) -> Option<Seq<char>>
    decreases list.len(),
{
    if list.len() == 0 {
        None
    } else if occurs(lower(c.class), list[0].0) && occurs(c.title, list[0].1) {
        Some(list[0].1)
    } else {
        marker_on(c, list.skip(1))
    }
}

/// The first window that can be seen and looks like private browsing.
pub open spec fn private_in(clients: Seq<ClientRow>) -> Option<PrivateRow>
    decreases clients.len(),
{
    if clients.len() == 0 {
        None
    } else {
        let c = clients[0];
        match marker_on(c, markers()) {
            Some(m) => if visible(c) {
                Some(PrivateRow { class: c.class, title: c.title, marker: m, heuristic: true })
            } else {
                private_in(clients.skip(1))
            },
            None => private_in(clients.skip(1)),
        }
    }
}

fn marker_of(c: &Client, list: &Vec<(&'static str, &'static str)>) -> (r: Option<String>)
    ensures
        match marker_on(c@, marker_rows(list@)) {
            Some(m) => r matches Some(s) && s@ == m,
            None => r is None,
        },
{
    let class = text::to_lower(c.class.as_str());
    let ghost all = marker_rows(list@);
    let mut i: usize = 0;
    assert(all.skip(0) =~= all);
    while i < list.len()
        invariant
            i <= list@.len(),
            all == marker_rows(list@),
            class@ == lower(c.class@),
            marker_on(c@, all) == marker_on(c@, all.skip(i as int)),
        decreases list@.len() - i,
    {
        assert(all.skip(i as int).skip(1) =~= all.skip(i + 1));
        assert(all.skip(i as int)[0] == all[i as int]);
        let (browser, marker) = list[i];
        if text::has(class.as_str(), browser) && text::has(c.title.as_str(), marker) {
            return Some(marker.to_string());
        }
        i += 1;
    }
    None
}

/// The first window that can be seen and looks like private browsing.
pub fn private_browsing(clients: &Vec<Client>) -> (r: Option<PrivateHit>)
    ensures
        match private_in(client_rows(clients@)) {
            Some(p) => r matches Some(h) && h@ == p,
            None => r is None,
        },
{
    let list = private_markers();
    let ghost all = client_rows(clients@);
    let mut i: usize = 0;
    assert(all.skip(0) =~= all);
    while i < clients.len()
        invariant
            i <= clients@.len(),
            all == client_rows(clients@),
            marker_rows(list@) == markers(),
            private_in(all) == private_in(all.skip(i as int)),
        decreases clients@.len() - i,
    {
        assert(all.skip(i as int).skip(1) =~= all.skip(i + 1));
        assert(all.skip(i as int)[0] == clients@[i as int]@);
        let c = &clients[i];
        if client_visible(c) {
            if let Some(marker) = marker_of(c, &list) {
                return Some(
                    PrivateHit { class: c.class.clone(), title: c.title.clone(), marker, heuristic: true },
                );
            }
        }
        i += 1;
    }
    None
}

/// What a pattern is looked for in.
pub open spec fn label_of(c: ClientRow) -> Seq<char> {
    lower(c.class.push(' ') + c.title)
}

/// The first pattern of a list that a window bears.
pub open spec fn pattern_on(c: ClientRow, patterns: Seq<Seq<char>>) -> Option<Seq<char>>
    decreases patterns.len(),
{
    if patterns.len() == 0 {
        None
    } else if patterns[0].len() > 0 && occurs(label_of(c), lower(patterns[0])) {
        Some(patterns[0])
    } else {
        pattern_on(c, patterns.skip(1))
    }
}

/// The first pattern that a window bears which can be seen.
pub open spec fn pattern_in(clients: Seq<ClientRow>, patterns: Seq<Seq<char>>) -> Option<Seq<char>>
    decreases clients.len(),
{
    if clients.len() == 0 {
        None
    } else {
        match pattern_on(clients[0], patterns) {
            Some(p) => if visible(clients[0]) {
                Some(p)
            } else {
                pattern_in(clients.skip(1), patterns)
            },
            None => pattern_in(clients.skip(1), patterns),
        }
    }
}

fn pattern_of(c: &Client, patterns: &Vec<String>) -> (r: Option<String>)
    ensures
        match pattern_on(c@, texts(patterns@)) {
            Some(p) => r matches Some(s) && s@ == p,
            None => r is None,
        },
{
    let mut label = c.class.clone();
    label.push(' ');
    label.append(c.title.as_str());
    let hay = text::to_lower(label.as_str());
    let ghost all = texts(patterns@);
    let mut i: usize = 0;
    assert(all.skip(0) =~= all);
    while i < patterns.len()
        invariant
            i <= patterns@.len(),
            all == texts(patterns@),
            hay@ == label_of(c@),
            pattern_on(c@, all) == pattern_on(c@, all.skip(i as int)),
        decreases patterns@.len() - i,
    {
        assert(all.skip(i as int).skip(1) =~= all.skip(i + 1));
        assert(all.skip(i as int)[0] == patterns@[i as int]@);
        let pat = text::to_lower(patterns[i].as_str());
        proof {
            crate::lookup::lemma_bytes_in(patterns@[i as int]@);
        }
        if text::byte_len(patterns[i].as_str()) > 0 && text::has(hay.as_str(), pat.as_str()) {
            return Some(patterns[i].clone());
        }
        i += 1;
    }
    None
}

/// The first pattern that a window bears which can be seen.
pub fn title_pause(clients: &Vec<Client>, patterns: &Vec<String>) -> (r: Option<String>)
    ensures
        match pattern_in(client_rows(clients@), texts(patterns@)) {
            Some(p) => r matches Some(s) && s@ == p,
            None => r is None,
        },
{
    let ghost all = client_rows(clients@);
    let ghost pats = texts(patterns@);
    let mut i: usize = 0;
    assert(all.skip(0) =~= all);
    while i < clients.len()
        invariant
            i <= clients@.len(),
            all == client_rows(clients@),
            pats == texts(patterns@),
            pattern_in(all, pats) == pattern_in(all.skip(i as int), pats),
        decreases clients@.len() - i,
    {
        assert(all.skip(i as int).skip(1) =~= all.skip(i + 1));
        assert(all.skip(i as int)[0] == clients@[i as int]@);
        if client_visible(&clients[i]) {
            if let Some(p) = pattern_of(&clients[i], patterns) {
                return Some(p);
            }
        }
        i += 1;
    }
    None
}

/// An excluded window pauses wherever it can be seen, focused or not; one that
/// is hidden or not mapped does not.
pub proof fn law_exclusion_is_about_visible_windows(clients: Seq<ClientRow>, exclude: Seq<Seq<char>>)
    ensures
        excluded_in(clients, exclude) is Some <==> exists|i: int|
            0 <= i < clients.len() && visible(#[trigger] clients[i]) && class_excluded(clients[i].class, exclude),
    decreases clients.len(),
{
    if clients.len() > 0 {
        let rest = clients.skip(1);
        law_exclusion_is_about_visible_windows(rest, exclude);
        if excluded_in(rest, exclude) is Some {
            let i = choose|i: int|
                0 <= i < rest.len() && visible(#[trigger] rest[i]) && class_excluded(rest[i].class, exclude);
            assert(clients[i + 1] == rest[i]);
        }
        if exists|i: int|
            0 <= i < clients.len() && visible(#[trigger] clients[i]) && class_excluded(clients[i].class, exclude) {
            let i = choose|i: int|
                0 <= i < clients.len() && visible(#[trigger] clients[i]) && class_excluded(
                    clients[i].class,
                    exclude,
                );
            if i > 0 {
                assert(rest[i - 1] == clients[i]);
            } else {
                assert(visible(clients[0]));
            }
        }
    }
}

fn window(class: &str, title: &str) -> (r: Client)
    ensures
        r@ == (ClientRow { class: class@, title: title@, mapped: true, ..crate::hypr::no_client() }),
{
    let mut c = Client::default();
    c.class = class.to_string();
    c.title = title.to_string();
    c.mapped = true;
    c
}

proof fn lemma_marked(c: ClientRow, list: Seq<(Seq<char>, Seq<char>)>, k: int)
    requires
        0 <= k < list.len(),
        occurs(lower(c.class), list[k].0),
        occurs(c.title, list[k].1),
    ensures
        marker_on(c, list) is Some,
    decreases k,
{
    if k > 0 {
        lemma_marked(c, list.skip(1), k - 1);
    }
}

proof fn lemma_self_test(keep: ClientRow, term: ClientRow)
    requires
        keep.class == "org.keepassxc.KeePassXC"@,
        term.class == "kitty"@,
        visible(keep),
    ensures
        excluded_in(seq![keep, term], seq!["keepassxc"@]) is Some,
        excluded_in(seq![term], seq!["keepassxc"@]) is None,
{
    reveal_strlit("org.keepassxc.KeePassXC");
    reveal_strlit("keepassxc");
    reveal_strlit("kitty");
    let list = seq!["keepassxc"@];
    let e = lower("keepassxc"@);
    let c = lower(term.class);
    assert(e =~= "keepassxc"@);
    assert(c =~= "kitty"@);
    assert(lower(keep.class).subrange(4, 13) =~= e);
    assert(text::occurs_at(lower(keep.class), e, 4));
    assert(same_app(keep.class, list[0]));
    assert(class_excluded(keep.class, list));
    assert(!occurs(e, c)) by {
        if occurs(e, c) {
            let i = choose|i: int| text::occurs_at(e, c, i);
            let part = e.subrange(i, i + c.len());
            assert(part[0] == e[i] && part[1] == e[i + 1]);
            assert(c[0] == 'k' && c[1] == 'i');
        }
    }
    assert(!class_excluded(term.class, list)) by {
        assert(!same_app(term.class, list[0]));
    }
    let one = seq![term];
    assert(one.skip(1) =~= Seq::empty());
    assert(excluded_in(one.skip(1), list) is None);
}

/// A password manager pauses, a terminal does not, and a private window is
/// noticed.
pub fn self_test() -> (r: Result<(), String>)
    ensures
        r is Ok,
{
    let mut exclude: Vec<String> = Vec::new();
    exclude.push("keepassxc".to_string());
    assert(texts(exclude@) =~= seq!["keepassxc"@]);
    let keep = window("org.keepassxc.KeePassXC", "KeePassXC");
    let term = window("kitty", "zsh");
    let mut both: Vec<Client> = Vec::new();
    both.push(keep.clone());
    both.push(term.clone());
    assert(client_rows(both@) =~= seq![keep@, term@]);
    proof {
        lemma_self_test(keep@, term@);
    }
    if excluded_visible(&both, &exclude).is_none() {
        return Err("keepassxc on any output should pause".to_string());
    }
    let mut one: Vec<Client> = Vec::new();
    one.push(term.clone());
    assert(client_rows(one@) =~= seq![term@]);
    if excluded_visible(&one, &exclude).is_some() {
        return Err("unrelated class must not pause".to_string());
    }
    let secret = window("google-chrome", "Secret — Google Chrome (Incognito)");
    let mut hidden: Vec<Client> = Vec::new();
    hidden.push(secret.clone());
    assert(client_rows(hidden@) =~= seq![secret@]);
    proof {
        reveal_strlit("google-chrome");
        reveal_strlit("Secret — Google Chrome (Incognito)");
        reveal_strlit("Incognito");
        let class = lower("google-chrome"@);
        assert(class.subrange(0, 13) =~= "google-chrome"@);
        assert(text::occurs_at(class, "google-chrome"@, 0));
        assert(secret@.title.subrange(24, 33) =~= "Incognito"@);
        assert(text::occurs_at(secret@.title, "Incognito"@, 24));
        lemma_marked(secret@, markers(), 3);
    }
    if private_browsing(&hidden).is_none() {
        return Err("chrome incognito marker missed".to_string());
    }
    Ok(())
}

/// A window is excluded by a name where it can be seen and its class and the name
/// are parts of one another.
pub open spec fn bars(name: Seq<char>, c: ClientRow) -> bool {
    &&& c.mapped && !c.hidden && name.len() > 0
    &&& occurs(lower(c.class), lower(name)) || occurs(lower(name), lower(c.class))
}

/// Recording is barred exactly where some name bars some window, whichever of the
/// windows that is; what is told is the class of the first such window.
pub proof fn law_any_window_can_be_excluded(clients: Seq<ClientRow>, exclude: Seq<Seq<char>>)
    ensures
        excluded_in(clients, exclude) is Some <==> exists|i: int, j: int|
            0 <= i < clients.len() && 0 <= j < exclude.len() && #[trigger] bars(exclude[j], clients[i]),
        forall|i: int, j: int|
            0 <= i < clients.len() && 0 <= j < exclude.len() && #[trigger] bars(exclude[j], clients[i]) && (forall|
                a: int,
                b: int,
            |
                0 <= a < i && 0 <= b < exclude.len() ==> !#[trigger] bars(exclude[b], clients[a])) ==> excluded_in(
                clients,
                exclude,
            ) == Some(clients[i].class),
    decreases clients.len(),
{
    if clients.len() > 0 {
        let rest = clients.skip(1);
        law_any_window_can_be_excluded(rest, exclude);
        let c = clients[0];
        assert forall|j: int| 0 <= j < exclude.len() implies (#[trigger] bars(exclude[j], c) <==> visible(c)
            && same_app(c.class, exclude[j])) by {
            let a = lower(c.class);
            let e = lower(exclude[j]);
            if a == e {
                assert(a.subrange(0, e.len() as int) =~= e);
                assert(text::occurs_at(a, e, 0));
            }
        }
        assert((visible(c) && class_excluded(c.class, exclude)) <==> exists|j: int|
            0 <= j < exclude.len() && #[trigger] bars(exclude[j], c)) by {
            if visible(c) && class_excluded(c.class, exclude) {
                let j = choose|j: int| 0 <= j < exclude.len() && same_app(c.class, #[trigger] exclude[j]);
                assert(bars(exclude[j], c));
            }
        }
        if excluded_in(rest, exclude) is Some {
            let (i, j) = choose|i: int, j: int|
                0 <= i < rest.len() && 0 <= j < exclude.len() && #[trigger] bars(exclude[j], rest[i]);
            assert(bars(exclude[j], clients[i + 1]));
        }
        assert forall|i: int, j: int|
            0 <= i < clients.len() && 0 <= j < exclude.len() && #[trigger] bars(exclude[j], clients[i]) && (forall|
                a: int,
                b: int,
            |
                0 <= a < i && 0 <= b < exclude.len() ==> !#[trigger] bars(
                    exclude[b],
                    clients[a],
                )) implies excluded_in(clients, exclude) == Some(clients[i].class) by {
            if i > 0 {
                assert(bars(exclude[j], rest[i - 1]));
                assert forall|a: int, b: int| 0 <= a < i - 1 && 0 <= b < exclude.len() implies !#[trigger] bars(
                    exclude[b],
                    rest[a],
                ) by {
                    assert(!bars(exclude[b], clients[a + 1]));
                }
                if exists|b: int| 0 <= b < exclude.len() && #[trigger] bars(exclude[b], c) {
                    let b = choose|b: int| 0 <= b < exclude.len() && #[trigger] bars(exclude[b], c);
                    assert(!bars(exclude[b], clients[0]));
                }
            }
        }
        if exists|i: int, j: int|
            0 <= i < clients.len() && 0 <= j < exclude.len() && #[trigger] bars(exclude[j], clients[i]) {
            let (i, j) = choose|i: int, j: int|
                0 <= i < clients.len() && 0 <= j < exclude.len() && #[trigger] bars(exclude[j], clients[i]);
            if i > 0 {
                assert(bars(exclude[j], rest[i - 1]));
            }
        }
    }
}

/// A window can be seen and bears the marker of a browser's private windows: the
/// browser's name is in its class, whatever the case of its letters, and the
/// marker in its title.
pub open spec fn marked_by(browser: Seq<char>, marker: Seq<char>, c: ClientRow) -> bool {
    c.mapped && !c.hidden && occurs(lower(c.class), browser) && occurs(c.title, marker)
}

/// Private browsing is noticed exactly where some window, whichever it is, can be
/// seen and bears the marker of some browser. What is told is the first such
/// window, and a marker that it bears.
pub proof fn law_any_private_window_is_noticed(clients: Seq<ClientRow>)
    ensures
        private_in(clients) is Some <==> exists|i: int, j: int|
            0 <= i < clients.len() && 0 <= j < markers().len() && #[trigger] marked_by(
                markers()[j].0,
                markers()[j].1,
                clients[i],
            ),
        private_in(clients) matches Some(p) ==> p.heuristic && exists|i: int, j: int|
            0 <= i < clients.len() && 0 <= j < markers().len() && #[trigger] marked_by(
                markers()[j].0,
                markers()[j].1,
                clients[i],
            ) && p.class == clients[i].class && p.title == clients[i].title && p.marker == markers()[j].1,
    decreases clients.len(),
{
    if clients.len() > 0 {
        let rest = clients.skip(1);
        let c = clients[0];
        law_any_private_window_is_noticed(rest);
        lemma_marker_on(c, markers());
        if private_in(rest) is Some {
            let p = private_in(rest).unwrap();
            let (i, j) = choose|i: int, j: int|
                0 <= i < rest.len() && 0 <= j < markers().len() && #[trigger] marked_by(
                    markers()[j].0,
                    markers()[j].1,
                    rest[i],
                ) && p.class == rest[i].class && p.title == rest[i].title && p.marker == markers()[j].1;
            assert(marked_by(markers()[j].0, markers()[j].1, clients[i + 1]));
        }
        if marker_on(c, markers()) is Some && visible(c) {
            let j = choose|j: int|
                0 <= j < markers().len() && occurs(lower(c.class), (#[trigger] markers()[j]).0) && occurs(
                    c.title,
                    markers()[j].1,
                ) && marker_on(c, markers()) == Some(markers()[j].1);
            assert(marked_by(markers()[j].0, markers()[j].1, clients[0]));
        }
        if exists|i: int, j: int|
            0 <= i < clients.len() && 0 <= j < markers().len() && #[trigger] marked_by(
                markers()[j].0,
                markers()[j].1,
                clients[i],
            ) {
            let (i, j) = choose|i: int, j: int|
                0 <= i < clients.len() && 0 <= j < markers().len() && #[trigger] marked_by(
                    markers()[j].0,
                    markers()[j].1,
                    clients[i],
                );
            if i > 0 {
                assert(marked_by(markers()[j].0, markers()[j].1, rest[i - 1]));
            } else {
                assert(occurs(lower(c.class), markers()[j].0) && occurs(c.title, markers()[j].1));
            }
        }
    }
}

proof fn lemma_marker_on(c: ClientRow, list: Seq<(Seq<char>, Seq<char>)>)
    ensures
        marker_on(c, list) matches Some(m) ==> exists|j: int|
            0 <= j < list.len() && occurs(lower(c.class), (#[trigger] list[j]).0) && occurs(c.title, list[j].1)
                && m == list[j].1,
        marker_on(c, list) is None ==> forall|j: int|
            0 <= j < list.len() ==> !(occurs(lower(c.class), (#[trigger] list[j]).0) && occurs(c.title, list[j].1)),
    decreases list.len(),
{
    if list.len() > 0 {
        let rest = list.skip(1);
        lemma_marker_on(c, rest);
        assert(forall|j: int| 0 < j < list.len() ==> list[j] == rest[j - 1]);
        if marker_on(c, rest) is Some && !(occurs(lower(c.class), list[0].0) && occurs(c.title, list[0].1)) {
            let j = choose|j: int|
                0 <= j < rest.len() && occurs(lower(c.class), (#[trigger] rest[j]).0) && occurs(c.title, rest[j].1)
                    && marker_on(c, rest) == Some(rest[j].1);
            assert(list[j + 1] == rest[j]);
        }
        assert(list[0] == list[0]);
    }
}

/// A window can be seen and bears a pattern in its class or its title, or across
/// the two, whatever the case of the letters.
pub open spec fn bears(pattern: Seq<char>, c: ClientRow) -> bool {
    &&& c.mapped && !c.hidden && pattern.len() > 0
    &&& occurs(lower(c.class + seq![' '] + c.title), lower(pattern))
}

/// A title pause holds exactly where some window, whichever it is, bears some
/// pattern, whichever that is; and the pattern that is told is one of the list
/// that some window bears.
pub proof fn law_any_title_can_pause(clients: Seq<ClientRow>, patterns: Seq<Seq<char>>)
    ensures
        pattern_in(clients, patterns) is Some <==> exists|i: int, j: int|
            0 <= i < clients.len() && 0 <= j < patterns.len() && #[trigger] bears(patterns[j], clients[i]),
        pattern_in(clients, patterns) matches Some(p) ==> exists|i: int, j: int|
            0 <= i < clients.len() && 0 <= j < patterns.len() && #[trigger] bears(patterns[j], clients[i]) && p
                == patterns[j],
    decreases clients.len(),
{
    if clients.len() > 0 {
        let rest = clients.skip(1);
        let c = clients[0];
        law_any_title_can_pause(rest, patterns);
        lemma_pattern_on(c, patterns);
        assert(c.class.push(' ') + c.title =~= c.class + seq![' '] + c.title);
        if pattern_in(rest, patterns) is Some {
            let p = pattern_in(rest, patterns).unwrap();
            let (i, j) = choose|i: int, j: int|
                0 <= i < rest.len() && 0 <= j < patterns.len() && #[trigger] bears(patterns[j], rest[i]) && p
                    == patterns[j];
            assert(bears(patterns[j], clients[i + 1]));
        }
        if pattern_on(c, patterns) is Some && visible(c) {
            let j = choose|j: int|
                0 <= j < patterns.len() && (#[trigger] patterns[j]).len() > 0 && occurs(
                    label_of(c),
                    lower(patterns[j]),
                ) && pattern_on(c, patterns) == Some(patterns[j]);
            assert(bears(patterns[j], clients[0]));
        }
        if exists|i: int, j: int|
            0 <= i < clients.len() && 0 <= j < patterns.len() && #[trigger] bears(patterns[j], clients[i]) {
            let (i, j) = choose|i: int, j: int|
                0 <= i < clients.len() && 0 <= j < patterns.len() && #[trigger] bears(patterns[j], clients[i]);
            if i > 0 {
                assert(bears(patterns[j], rest[i - 1]));
            } else {
                assert(patterns[j].len() > 0);
            }
        }
    }
}

proof fn lemma_pattern_on(c: ClientRow, list: Seq<Seq<char>>)
    ensures
        pattern_on(c, list) matches Some(m) ==> exists|j: int|
            0 <= j < list.len() && (#[trigger] list[j]).len() > 0 && occurs(label_of(c), lower(list[j])) && m == list[j],
        pattern_on(c, list) is None ==> forall|j: int|
            0 <= j < list.len() ==> !((#[trigger] list[j]).len() > 0 && occurs(label_of(c), lower(list[j]))),
    decreases list.len(),
{
    if list.len() > 0 {
        let rest = list.skip(1);
        lemma_pattern_on(c, rest);
        assert(forall|j: int| 0 < j < list.len() ==> list[j] == rest[j - 1]);
        if pattern_on(c, rest) is Some && !(list[0].len() > 0 && occurs(label_of(c), lower(list[0]))) {
            let j = choose|j: int|
                0 <= j < rest.len() && (#[trigger] rest[j]).len() > 0 && occurs(label_of(c), lower(rest[j]))
                    && pattern_on(c, rest) == Some(rest[j]);
            assert(list[j + 1] == rest[j]);
        }
    }
}

/// The title of a window tells that it is a private one of its browser.
pub open spec fn is_private(c: ClientRow) -> bool {
    let class = lower(c.class);
    ||| (occurs(class, "firefox"@) || occurs(class, "librewolf"@)) && occurs(c.title, "Private Browsing"@)
    ||| (occurs(class, "chrome"@) || occurs(class, "chromium"@)) && occurs(c.title, "Incognito"@)
    ||| occurs(class, "brave"@) && occurs(c.title, "Private"@)
}

/// Private browsing is noticed exactly where some window can be seen that is a
/// window of Firefox or LibreWolf with "Private Browsing" in its title, of Chrome
/// or Chromium with "Incognito", or of Brave with "Private".
pub proof fn law_private_windows_of_each_browser(clients: Seq<ClientRow>)
    ensures
        private_in(clients) is Some <==> exists|i: int|
            0 <= i < clients.len() && (#[trigger] clients[i]).mapped && !clients[i].hidden && is_private(clients[i]),
{
    law_any_private_window_is_noticed(clients);
    let ms = markers();
    if private_in(clients) is Some {
        let (i, j) = choose|i: int, j: int|
            0 <= i < clients.len() && 0 <= j < markers().len() && #[trigger] marked_by(
                markers()[j].0,
                markers()[j].1,
                clients[i],
            );
        let class = lower(clients[i].class);
        let title = clients[i].title;
        lemma_longer_markers();
        if j == 0 {
            lemma_occurs_within(title, "(Private Browsing)"@, "Private Browsing"@);
        } else if j == 3 {
            lemma_occurs_within(class, "google-chrome"@, "chrome"@);
        } else if j == 4 {
            lemma_occurs_within(class, "google-chrome"@, "chrome"@);
            lemma_occurs_within(title, "(Incognito)"@, "Incognito"@);
        } else if j == 6 {
            lemma_occurs_within(title, "(Incognito)"@, "Incognito"@);
        } else if j == 8 {
            lemma_occurs_within(class, "brave-browser"@, "brave"@);
        } else if j == 9 {
            lemma_occurs_within(title, "Private Window"@, "Private"@);
        }
        assert(is_private(clients[i]));
    }
    if exists|i: int|
        0 <= i < clients.len() && (#[trigger] clients[i]).mapped && !clients[i].hidden && is_private(clients[i]) {
        let i = choose|i: int|
            0 <= i < clients.len() && (#[trigger] clients[i]).mapped && !clients[i].hidden && is_private(clients[i]);
        let c = clients[i];
        let class = lower(c.class);
        let j: int = if occurs(class, "firefox"@) && occurs(c.title, "Private Browsing"@) {
            1
        } else if occurs(class, "librewolf"@) && occurs(c.title, "Private Browsing"@) {
            2
        } else if occurs(class, "chromium"@) && occurs(c.title, "Incognito"@) {
            5
        } else if occurs(class, "chrome"@) && occurs(c.title, "Incognito"@) {
            7
        } else {
            10
        };
        assert(marked_by(ms[j].0, ms[j].1, clients[i]));
    }
}

proof fn lemma_longer_markers()
    ensures
        occurs("(Private Browsing)"@, "Private Browsing"@),
        occurs("(Incognito)"@, "Incognito"@),
        occurs("google-chrome"@, "chrome"@),
        occurs("brave-browser"@, "brave"@),
        occurs("Private Window"@, "Private"@),
{
    reveal_strlit("(Private Browsing)");
    reveal_strlit("Private Browsing");
    reveal_strlit("(Incognito)");
    reveal_strlit("Incognito");
    reveal_strlit("google-chrome");
    reveal_strlit("chrome");
    reveal_strlit("brave-browser");
    reveal_strlit("brave");
    reveal_strlit("Private Window");
    reveal_strlit("Private");
    assert("(Private Browsing)"@.subrange(1, 17) =~= "Private Browsing"@);
    assert(text::occurs_at("(Private Browsing)"@, "Private Browsing"@, 1));
    assert("(Incognito)"@.subrange(1, 10) =~= "Incognito"@);
    assert(text::occurs_at("(Incognito)"@, "Incognito"@, 1));
    assert("google-chrome"@.subrange(7, 13) =~= "chrome"@);
    assert(text::occurs_at("google-chrome"@, "chrome"@, 7));
    assert("brave-browser"@.subrange(0, 5) =~= "brave"@);
    assert(text::occurs_at("brave-browser"@, "brave"@, 0));
    assert("Private Window"@.subrange(0, 7) =~= "Private"@);
    assert(text::occurs_at("Private Window"@, "Private"@, 0));
}

proof fn lemma_occurs_within(hay: Seq<char>, long: Seq<char>, short: Seq<char>)
    requires
        occurs(hay, long),
        occurs(long, short),
    ensures
        occurs(hay, short),
{
    let i = choose|i: int| text::occurs_at(hay, long, i);
    let j = choose|j: int| text::occurs_at(long, short, j);
    assert(hay.subrange(i + j, i + j + short.len()) =~= hay.subrange(i, i + long.len()).subrange(j, j + short.len()));
    assert(text::occurs_at(hay, short, i + j));
}

} // verus!
