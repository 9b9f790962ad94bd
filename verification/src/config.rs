//! The settings of the daemon.
use crate::float::{self, above_zero_below, at_least, converted};
use crate::json::{self, bool_in, field_of, json_of, jsons, or, Json};
use crate::text::{self, joined, pieces, texts, trim, views, Separator};
use serde_json::Value;
use vstd::arithmetic::power2::{lemma2_to64, lemma_pow2_pos, pow2};
use vstd::prelude::*;

verus! {

/// The bytes that are kept where nothing else is asked for.
pub const DEFAULT_BYTE_CAP: i64 = 2 * 1024 * 1024 * 1024;

/// The milliseconds between frames where nothing else is asked for.
pub const DEFAULT_CADENCE_MS: u64 = 3000;

/// The seconds without input after which recording pauses where nothing else is
/// asked for.
pub const DEFAULT_IDLE_PAUSE_SEC: u64 = 120;

/// The applications that are excluded where nothing else is asked for.
pub open spec fn usual_excludes() -> Seq<Seq<char>> {
    seq![
        "keepassxc"@,
        "1Password"@,
        "1password"@,
        "Bitwarden"@,
        "bitwarden"@,
        "seahorse"@,
        "polkit-gnome-authentication-agent-1"@,
        "polkit-kde-authentication-agent-1"@,
        "lxqt-policykit-agent"@,
        "mate-polkit"@,
        "xfce-polkit"@,
    ]
}

/// The applications that are excluded where nothing else is asked for.
pub fn default_excludes() -> (r: Vec<String>)
    ensures
        texts(r@) == usual_excludes(),
{
    let mut v: Vec<String> = Vec::new();
    v.push("keepassxc".to_string());
    v.push("1Password".to_string());
    v.push("1password".to_string());
    v.push("Bitwarden".to_string());
    v.push("bitwarden".to_string());
    v.push("seahorse".to_string());
    v.push("polkit-gnome-authentication-agent-1".to_string());
    v.push("polkit-kde-authentication-agent-1".to_string());
    v.push("lxqt-policykit-agent".to_string());
    v.push("mate-polkit".to_string());
    v.push("xfce-polkit".to_string());
    assert(texts(v@) =~= usual_excludes());
    v
}

/// The settings of the daemon.
#[derive(Debug)]
pub struct Settings {
    pub byte_cap: i64,
    pub cadence_ms: u64,
    pub idle_pause_sec: u64,
    pub exclude_apps: Vec<String>,
    pub title_pause_patterns: Vec<String>,
    pub arm_on_login: bool,
    pub armed: bool,
    pub consent_at: i64,
    pub skip_unchanged: bool,
}

/// What settings say.
#[verifier::ext_equal]
pub struct SettingsRow {
    pub byte_cap: i64,
    pub cadence_ms: u64,
    pub idle_pause_sec: u64,
    pub exclude_apps: Seq<Seq<char>>,
    pub title_pause_patterns: Seq<Seq<char>>,
    pub arm_on_login: bool,
    pub armed: bool,
    pub consent_at: i64,
    pub skip_unchanged: bool,
}

impl View for Settings {
    type V = SettingsRow;

    open spec fn view(&self) -> SettingsRow {
        SettingsRow {
            byte_cap: self.byte_cap,
            cadence_ms: self.cadence_ms,
            idle_pause_sec: self.idle_pause_sec,
            exclude_apps: texts(self.exclude_apps@),
            title_pause_patterns: texts(self.title_pause_patterns@),
            arm_on_login: self.arm_on_login,
            armed: self.armed,
            consent_at: self.consent_at,
            skip_unchanged: self.skip_unchanged,
        }
    }
}

impl Clone for Settings {
    fn clone(&self) -> (r: Self)
        ensures
            r@ == self@,
    {
        Settings {
            byte_cap: self.byte_cap,
            cadence_ms: self.cadence_ms,
            idle_pause_sec: self.idle_pause_sec,
            exclude_apps: text::copy_texts(&self.exclude_apps),
            title_pause_patterns: text::copy_texts(&self.title_pause_patterns),
            arm_on_login: self.arm_on_login,
            armed: self.armed,
            consent_at: self.consent_at,
            skip_unchanged: self.skip_unchanged,
        }
    }
}

/// The settings where nothing was asked for: nothing is recorded.
pub open spec fn initial_settings() -> SettingsRow {
    SettingsRow {
        byte_cap: DEFAULT_BYTE_CAP,
        cadence_ms: DEFAULT_CADENCE_MS,
        idle_pause_sec: DEFAULT_IDLE_PAUSE_SEC,
        exclude_apps: usual_excludes(),
        title_pause_patterns: Seq::empty(),
        arm_on_login: false,
        armed: false,
        consent_at: 0,
        skip_unchanged: true,
    }
}

impl Default for Settings {
    fn default() -> (r: Self)
        ensures
            r@ == initial_settings(),
    {
        let r = Settings {
            byte_cap: DEFAULT_BYTE_CAP,
            cadence_ms: DEFAULT_CADENCE_MS,
            idle_pause_sec: DEFAULT_IDLE_PAUSE_SEC,
            exclude_apps: default_excludes(),
            title_pause_patterns: Vec::new(),
            arm_on_login: false,
            armed: false,
            consent_at: 0,
            skip_unchanged: true,
        };
        assert(r@ =~= initial_settings());
        r
    }
}

/// The pieces of a list that say something, without the white space around them.
pub open spec fn said(ps: Seq<Seq<char>>) -> Seq<Seq<char>>
    decreases ps.len(),
{
    if ps.len() == 0 {
        ps
    } else {
        let front = said(ps.drop_last());
        let t = trim(ps.last());
        if t.len() == 0 {
            front
        } else {
            front.push(t)
        }
    }
}

/// The parts of a text between commas that say something.
pub open spec fn csv(s: Seq<char>) -> Seq<Seq<char>> {
    said(pieces(s, Separator::Mark(',')))
}

/// The parts of a text between commas that say something.
pub fn split_csv(s: &str) -> (r: Vec<String>)
    ensures
        texts(r@) == csv(s@),
{
    let v = text::chars_of(s);
    let parts = text::split(&v, Separator::Mark(','));
    let ghost all = views(parts@);
    let mut out: Vec<String> = Vec::new();
    let mut i: usize = 0;
    assert(all.take(0) =~= Seq::<Seq<char>>::empty());
    assert(texts(out@) =~= Seq::<Seq<char>>::empty());
    while i < parts.len()
        invariant
            i <= parts@.len(),
            all == views(parts@),
            texts(out@) == said(all.take(i as int)),
        decreases parts@.len() - i,
    {
        assert(all.take(i + 1).drop_last() =~= all.take(i as int));
        assert(all.take(i + 1).last() == parts@[i as int]@);
        let t = text::trim_chars(&parts[i]);
        if t.len() > 0 {
            let ghost was = texts(out@);
            out.push(text::string_of(&t));
            assert(texts(out@) =~= was.push(t@));
        }
        i += 1;
    }
    assert(all.take(i as int) =~= all);
    out
}

/// The parts between commas say something, have no white space at their ends and
/// no comma in them, and with commas between them give the same parts again.
pub proof fn law_parts_can_be_joined_again(s: Seq<char>)
    ensures
        forall|i: int|
            0 <= i < csv(s).len() ==> is_part(#[trigger] csv(s)[i]),
        csv(joined(csv(s), seq![','])) == csv(s),
{
    let sep = Separator::Mark(',');
    let ps = pieces(s, sep);
    assert forall|i: int, c: char| 0 <= i < ps.len() && #[trigger] ps[i].contains(c) implies c != ',' by {
        let j = choose|j: int| 0 <= j < ps[i].len() && ps[i][j] == c;
        text::lemma_pieces_hold(s, sep, i, j);
    }
    lemma_said(ps);
    lemma_parts_joined(csv(s));
}

proof fn lemma_said(ps: Seq<Seq<char>>)
    requires
        forall|i: int, c: char| 0 <= i < ps.len() && #[trigger] ps[i].contains(c) ==> c != ',',
    ensures
        forall|i: int| 0 <= i < said(ps).len() ==> is_part(#[trigger] said(ps)[i]),
    decreases ps.len(),
{
    if ps.len() > 0 {
        let d = ps.drop_last();
        assert forall|i: int, c: char| 0 <= i < d.len() && #[trigger] d[i].contains(c) implies c != ',' by {
            assert(ps[i].contains(c));
        }
        lemma_said(d);
        text::lemma_trimmed(ps.last());
        let t = trim(ps.last());
        assert(!t.contains(',')) by {
            if t.contains(',') {
                assert(ps[ps.len() - 1].contains(','));
            }
        }
        assert forall|i: int| 0 <= i < said(ps).len() implies is_part(#[trigger] said(ps)[i]) by {
            if i < said(d).len() {
                assert(said(ps)[i] == said(d)[i]);
            }
        }
    }
}

/// A text that can stand between commas and says something.
pub open spec fn is_part(part: Seq<char>) -> bool {
    part.len() > 0 && trim(part) == part && !part.contains(',')
}

proof fn lemma_said_more(ps: Seq<Seq<char>>, part: Seq<char>)
    requires
        is_part(part),
    ensures
        said(ps.push(part)) == said(ps).push(part),
{
    assert(ps.push(part).drop_last() =~= ps);
}

proof fn lemma_one_piece(part: Seq<char>)
    requires
        is_part(part),
    ensures
        pieces(part, Separator::Mark(',')) == Seq::<Seq<char>>::empty().push(part),
{
    let sep = Separator::Mark(',');
    let none = Seq::<char>::empty();
    assert forall|i: int| 0 <= i < part.len() implies !sep.parts(#[trigger] part[i]) by {
        assert(part.contains(part[i]));
    }
    text::lemma_pieces_run(none, part, sep);
    assert(none + part =~= part);
    assert(pieces(none, sep) =~= seq![none]);
    assert(pieces(none, sep).drop_last() =~= Seq::<Seq<char>>::empty());
}

proof fn lemma_parts_joined(list: Seq<Seq<char>>)
    requires
        forall|i: int| 0 <= i < list.len() ==> is_part(#[trigger] list[i]),
    ensures
        csv(joined(list, seq![','])) == list,
    decreases list.len(),
{
    let sep = Separator::Mark(',');
    let nothing = Seq::<Seq<char>>::empty();
    assert(said(nothing) =~= nothing);
    if list.len() == 0 {
        let none = Seq::<char>::empty();
        assert(trim(none) =~= none);
        assert(pieces(none, sep).drop_last() =~= nothing);
        assert(list =~= nothing);
    } else {
        let last = list[list.len() - 1];
        let d = list.drop_last();
        assert(is_part(last));
        lemma_one_piece(last);
        assert(d.push(last) =~= list);
        if d.len() == 0 {
            lemma_said_more(nothing, last);
            assert(d =~= nothing);
        } else {
            assert forall|i: int| 0 <= i < d.len() implies is_part(#[trigger] d[i]) by {
                assert(list[i] == d[i]);
            }
            lemma_parts_joined(d);
            let front = joined(d, seq![',']);
            assert(joined(list, seq![',']) =~= front.push(',') + last);
            text::lemma_pieces_joined(front, ',', last, sep);
            assert(pieces(front, sep) + nothing.push(last) =~= pieces(front, sep).push(last));
            lemma_said_more(pieces(front, sep), last);
        }
    }
}

/// The texts among values that say something.
pub open spec fn texts_in(s: Seq<Json>) -> Seq<Seq<char>>
    decreases s.len(),
{
    if s.len() == 0 {
        Seq::empty()
    } else {
        let front = texts_in(s.drop_last());
        match s.last() {
            Json::Text(t) => if t.len() > 0 {
                front.push(t)
            } else {
                front
            },
            _ => front,
        }
    }
}

/// The list that a value gives: its texts, or the parts of its one text.
pub open spec fn list_at(j: Option<Json>) -> Option<Seq<Seq<char>>> {
    match j {
        Some(Json::List(s)) => Some(texts_in(s)),
        Some(Json::Text(t)) => Some(csv(t)),
        _ => None,
    }
}

/// The first of three lists that is given.
pub open spec fn list_under(j: Json, a: Seq<char>, b: Seq<char>, c: Seq<char>) -> Option<Seq<Seq<char>>> {
    if list_at(field_of(j, a)) is Some {
        list_at(field_of(j, a))
    } else if list_at(field_of(j, b)) is Some {
        list_at(field_of(j, b))
    } else {
        list_at(field_of(j, c))
    }
}

/// What a list that may be missing says.
pub open spec fn told(r: Option<Vec<String>>) -> Option<Seq<Seq<char>>> {
    match r {
        Some(v) => Some(texts(v@)),
        None => None,
    }
}

fn list_in(v: &Value, key: &str) -> (r: Option<Vec<String>>)
    ensures
        told(r) == list_at(field_of(json_of(*v), key@)),
{
    let x = match json::field(v, key) {
        Some(x) => x,
        None => {
            return None;
        },
    };
    if let Some(arr) = x.as_array() {
        let ghost all = jsons(arr@);
        let mut out: Vec<String> = Vec::new();
        let mut i: usize = 0;
        assert(all.take(0) =~= Seq::<Json>::empty());
        assert(texts(out@) =~= Seq::<Seq<char>>::empty());
        while i < arr.len()
            invariant
                i <= arr@.len(),
                all == jsons(arr@),
                texts(out@) == texts_in(all.take(i as int)),
            decreases arr@.len() - i,
        {
            assert(all.take(i + 1).drop_last() =~= all.take(i as int));
            assert(all.take(i + 1).last() == json_of(arr@[i as int]));
            if let Some(s) = arr[i].as_str() {
                proof {
                    crate::lookup::lemma_bytes_in(s@);
                }
                if text::byte_len(s) > 0 {
                    let ghost was = texts(out@);
                    out.push(s.to_string());
                    assert(texts(out@) =~= was.push(s@));
                }
            }
            i += 1;
        }
        assert(all.take(i as int) =~= all);
        return Some(out);
    }
    if let Some(s) = x.as_str() {
        return Some(split_csv(s));
    }
    None
}

fn string_list(v: &Value, a: &str, b: &str, c: &str) -> (r: Option<Vec<String>>)
    ensures
        told(r) == list_under(json_of(*v), a@, b@, c@),
{
    if let Some(list) = list_in(v, a) {
        return Some(list);
    }
    if let Some(list) = list_in(v, b) {
        return Some(list);
    }
    list_in(v, c)
}

/// The numbers among settings that are asked for, each as the bits of its IEEE
/// 754 double.
#[derive(Debug, Clone, Copy)]
pub struct Numbers {
    pub byte_cap: Option<u64>,
    pub cadence_ms: Option<u64>,
    pub idle_pause_sec: Option<u64>,
}

/// A number among settings.
#[derive(Debug, Clone, Copy)]
pub enum Number {
    ByteCap,
    Cadence,
    IdlePause,
}

impl Number {
    /// The keys that a number can stand under, the one that counts first before
    /// the others.
    pub open spec fn keys(self) -> Seq<Seq<char>> {
        match self {
            Number::ByteCap => seq!["byteCap"@, "byteCapGb"@, "byte_cap"@],
            Number::Cadence => seq!["cadenceMs"@, "cadence_ms"@],
            Number::IdlePause => seq!["idlePauseSec"@, "idle_pause_sec"@],
        }
    }
}

/// The members of a value under some keys, in the order of the keys.
pub open spec fn members(j: Json, keys: Seq<Seq<char>>) -> Seq<Json>
    decreases keys.len(),
{
    if keys.len() == 0 {
        Seq::empty()
    } else {
        let front = members(j, keys.drop_last());
        match field_of(j, keys.last()) {
            Some(m) => front.push(m),
            None => front,
        }
    }
}

/// The first of some readings that gives a number.
pub open spec fn first_given(readings: Seq<Option<u64>>) -> Option<u64>
    decreases readings.len(),
{
    if readings.len() == 0 {
        None
    } else if readings[0] is Some {
        readings[0]
    } else {
        first_given(readings.skip(1))
    }
}

/// A number among settings, for a way to read a number in a member.
pub open spec fn number_from(j: Json, n: Number, read: spec_fn(Json) -> Option<u64>) -> Option<u64> {
    first_given(members(j, n.keys()).map_values(read))
}

/// The numbers among settings, for a way to read a number in a member.
pub open spec fn numbers_from(j: Json, read: spec_fn(Json) -> Option<u64>) -> Numbers {
    Numbers {
        byte_cap: number_from(j, Number::ByteCap, read),
        cadence_ms: number_from(j, Number::Cadence, read),
        idle_pause_sec: number_from(j, Number::IdlePause, read),
    }
}

fn push_member(out: &mut Vec<Value>, v: &Value, key: &str)
    ensures
        jsons(final(out)@) == (match field_of(json_of(*v), key@) {
            Some(m) => jsons(old(out)@).push(m),
            None => jsons(old(out)@),
        }),
{
    let ghost was = jsons(out@);
    if let Some(m) = json::field(v, key) {
        out.push(m.clone());
        assert(jsons(out@) =~= was.push(json_of(*m)));
    }
}

/// The members that a number among settings can come from, in the order in which
/// they count.
pub fn number_members(v: &Value, n: Number) -> (r: Vec<Value>)
    ensures
        jsons(r@) == members(json_of(*v), n.keys()),
{
    let mut out: Vec<Value> = Vec::new();
    proof {
        reveal_with_fuel(members, 4);
        assert(jsons(out@) =~= Seq::<Json>::empty());
        let keys = n.keys();
        assert(keys.drop_last() =~= keys.take(keys.len() - 1));
        assert(keys.drop_last().drop_last() =~= keys.take(keys.len() - 2));
    }
    match n {
        Number::ByteCap => {
            push_member(&mut out, v, "byteCap");
            push_member(&mut out, v, "byteCapGb");
            push_member(&mut out, v, "byte_cap");
        },
        Number::Cadence => {
            push_member(&mut out, v, "cadenceMs");
            push_member(&mut out, v, "cadence_ms");
        },
        Number::IdlePause => {
            push_member(&mut out, v, "idlePauseSec");
            push_member(&mut out, v, "idle_pause_sec");
        },
    }
    out
}

/// The first of some readings that gives a number.
pub fn first_reading(readings: &Vec<Option<u64>>) -> (r: Option<u64>)
    ensures
        r == first_given(readings@),
{
    let mut i: usize = 0;
    assert(readings@.skip(0) =~= readings@);
    while i < readings.len()
        invariant
            i <= readings@.len(),
            first_given(readings@) == first_given(readings@.skip(i as int)),
        decreases readings@.len() - i,
    {
        assert(readings@.skip(i as int).skip(1) =~= readings@.skip(i + 1));
        if readings[i].is_some() {
            return readings[i];
        }
        i += 1;
    }
    None
}

/// The cap that a number asks for: a number of gigabytes, where it is named so
/// or is small, and else of bytes.
pub open spec fn cap_for(j: Json, bits: u64) -> int {
    let gigabytes = field_of(j, "byteCapGb"@) is Some || field_of(j, "byte_cap_gb"@) is Some || above_zero_below(
        bits,
        128,
    );
    converted(bits, if gigabytes { 30 } else { 0 }, i64::MIN as int, i64::MAX as int)
}

/// Settings with what is asked for in place of what was.
pub open spec fn merged(s: SettingsRow, j: Json, n: Numbers) -> SettingsRow {
    SettingsRow {
        byte_cap: match n.byte_cap {
            Some(bits) => cap_for(j, bits) as i64,
            None => s.byte_cap,
        },
        cadence_ms: match n.cadence_ms {
            Some(bits) => at_least(bits, 1000) as u64,
            None => s.cadence_ms,
        },
        idle_pause_sec: match n.idle_pause_sec {
            Some(bits) => at_least(bits, 30) as u64,
            None => s.idle_pause_sec,
        },
        exclude_apps: match list_under(j, "excludeApps"@, "exclude_apps"@, "exclude"@) {
            Some(list) => if list.len() > 0 {
                list
            } else {
                s.exclude_apps
            },
            None => s.exclude_apps,
        },
        title_pause_patterns: or(
            list_under(j, "titlePausePatterns"@, "title_pause_patterns"@, "titlePause"@),
            s.title_pause_patterns,
        ),
        arm_on_login: or(bool_in(field_of(j, "armOnLogin"@)), s.arm_on_login),
        skip_unchanged: or(bool_in(field_of(j, "skipUnchanged"@)), s.skip_unchanged),
        armed: s.armed,
        consent_at: s.consent_at,
    }
}

/// Settings as they were kept, made usable: something is excluded, and the cap
/// is not zero.
pub open spec fn repaired(s: SettingsRow) -> SettingsRow {
    SettingsRow {
        exclude_apps: if s.exclude_apps.len() == 0 {
            usual_excludes()
        } else {
            s.exclude_apps
        },
        byte_cap: if s.byte_cap <= 0 {
            DEFAULT_BYTE_CAP
        } else {
            s.byte_cap
        },
        ..s
    }
}

impl Settings {
    /// Take over what is asked for.
    pub fn merge_json(&mut self, v: &Value, n: &Numbers)
        ensures
            final(self)@ == merged(old(self)@, json_of(*v), *n),
    {
        if let Some(bits) = n.byte_cap {
            let named = json::field(v, "byteCapGb").is_some() || json::field(v, "byte_cap_gb").is_some();
            let gigabytes = named || float::is_above_zero_below(bits, 128);
            self.byte_cap = float::to_i64(bits, if gigabytes { 30 } else { 0 });
        }
        if let Some(bits) = n.cadence_ms {
            self.cadence_ms = float::to_u64_at_least(bits, 1000);
        }
        if let Some(bits) = n.idle_pause_sec {
            self.idle_pause_sec = float::to_u64_at_least(bits, 30);
        }
        if let Some(list) = string_list(v, "excludeApps", "exclude_apps", "exclude") {
            assert(texts(list@).len() == list@.len());
            if list.len() > 0 {
                self.exclude_apps = list;
            }
        }
        if let Some(list) = string_list(v, "titlePausePatterns", "title_pause_patterns", "titlePause") {
            self.title_pause_patterns = list;
        }
        if let Some(b) = json::bool_field(v, "armOnLogin") {
            self.arm_on_login = b;
        }
        if let Some(b) = json::bool_field(v, "skipUnchanged") {
            self.skip_unchanged = b;
        }
        assert(self@ =~= merged(old(self)@, json_of(*v), *n));
    }

    /// Make settings usable that were kept.
    pub fn repair(&mut self)
        ensures
            final(self)@ == repaired(old(self)@),
    {
        assert(texts(self.exclude_apps@).len() == self.exclude_apps@.len());
        if self.exclude_apps.len() == 0 {
            self.exclude_apps = default_excludes();
        }
        if self.byte_cap <= 0 {
            self.byte_cap = DEFAULT_BYTE_CAP;
        }
        assert(self@ =~= repaired(old(self)@));
    }
}

/// Settings that are asked for neither switch recording on nor record consent,
/// keep the least interval and the least time without input, and never leave
/// everything unexcluded where something was excluded.
pub proof fn law_asking_does_not_arm(s: SettingsRow, j: Json, n: Numbers)
    ensures
        merged(s, j, n).armed == s.armed,
        merged(s, j, n).consent_at == s.consent_at,
        n.cadence_ms is Some ==> merged(s, j, n).cadence_ms >= 1000,
        n.idle_pause_sec is Some ==> merged(s, j, n).idle_pause_sec >= 30,
        s.exclude_apps.len() > 0 ==> merged(s, j, n).exclude_apps.len() > 0,
{
    float::lemma_at_least(n.cadence_ms, 1000);
    float::lemma_at_least(n.idle_pause_sec, 30);
}

/// Asking for the same a second time changes nothing more.
pub proof fn law_asking_twice_is_asking_once(s: SettingsRow, j: Json, n: Numbers)
    ensures
        merged(merged(s, j, n), j, n) == merged(s, j, n),
{
}

/// A value has no member under any of some keys.
pub open spec fn absent(j: Json, keys: Seq<Seq<char>>) -> bool {
    forall|i: int| 0 <= i < keys.len() ==> field_of(j, #[trigger] keys[i]) is None
}

/// A setting stays as it was where none of its keys is there, however numbers are
/// read; an empty list of exclusions leaves them as they were; and a value
/// without members changes nothing.
pub proof fn law_what_is_not_asked_for_stays(s: SettingsRow, j: Json, read: spec_fn(Json) -> Option<u64>)
    ensures
        ({
            let m = merged(s, j, numbers_from(j, read));
            &&& absent(j, Number::ByteCap.keys()) ==> m.byte_cap == s.byte_cap
            &&& absent(j, Number::Cadence.keys()) ==> m.cadence_ms == s.cadence_ms
            &&& absent(j, Number::IdlePause.keys()) ==> m.idle_pause_sec == s.idle_pause_sec
            &&& absent(j, exclude_keys()) ==> m.exclude_apps == s.exclude_apps
            &&& list_under(j, exclude_keys()[0], exclude_keys()[1], exclude_keys()[2]) == Some(
                Seq::<Seq<char>>::empty(),
            ) ==> m.exclude_apps == s.exclude_apps
            &&& absent(j, title_keys()) ==> m.title_pause_patterns == s.title_pause_patterns
            &&& field_of(j, "armOnLogin"@) is None ==> m.arm_on_login == s.arm_on_login
            &&& field_of(j, "skipUnchanged"@) is None ==> m.skip_unchanged == s.skip_unchanged
            &&& (forall|key: Seq<char>| #[trigger] field_of(j, key) is None) ==> m == s
        }),
{
    lemma_no_members(j, Number::ByteCap.keys(), read);
    lemma_no_members(j, Number::Cadence.keys(), read);
    lemma_no_members(j, Number::IdlePause.keys(), read);
    assert(absent(j, exclude_keys()) ==> {
        &&& field_of(j, exclude_keys()[0]) is None
        &&& field_of(j, exclude_keys()[1]) is None
        &&& field_of(j, exclude_keys()[2]) is None
    });
    assert(absent(j, title_keys()) ==> {
        &&& field_of(j, title_keys()[0]) is None
        &&& field_of(j, title_keys()[1]) is None
        &&& field_of(j, title_keys()[2]) is None
    });
}

proof fn lemma_no_members(j: Json, keys: Seq<Seq<char>>, read: spec_fn(Json) -> Option<u64>)
    ensures
        absent(j, keys) ==> members(j, keys).len() == 0 && first_given(members(j, keys).map_values(read)) is None,
    decreases keys.len(),
{
    if keys.len() > 0 && absent(j, keys) {
        let d = keys.drop_last();
        assert forall|i: int| 0 <= i < d.len() implies field_of(j, #[trigger] d[i]) is None by {
            assert(d[i] == keys[i]);
        }
        lemma_no_members(j, d, read);
        assert(field_of(j, keys[keys.len() - 1]) is None);
    }
}

/// The keys that exclusions can stand under.
pub open spec fn exclude_keys() -> Seq<Seq<char>> {
    seq!["excludeApps"@, "exclude_apps"@, "exclude"@]
}

/// The keys that title patterns can stand under.
pub open spec fn title_keys() -> Seq<Seq<char>> {
    seq!["titlePausePatterns"@, "title_pause_patterns"@, "titlePause"@]
}

/// Settings that were kept are used as they are, but for two: where nothing is
/// excluded the usual applications are, and where the cap is not above zero it is
/// the usual one.
pub proof fn law_kept_settings_are_used(s: SettingsRow)
    ensures
        ({
            let r = repaired(s);
            &&& r.exclude_apps.len() > 0 && r.byte_cap > 0
            &&& s.exclude_apps.len() > 0 ==> r.exclude_apps == s.exclude_apps
            &&& s.exclude_apps.len() == 0 ==> r.exclude_apps == initial_settings().exclude_apps
            &&& s.byte_cap > 0 ==> r.byte_cap == s.byte_cap
            &&& s.byte_cap <= 0 ==> r.byte_cap == 2_147_483_648
            &&& r.cadence_ms == s.cadence_ms && r.idle_pause_sec == s.idle_pause_sec
            &&& r.title_pause_patterns == s.title_pause_patterns
            &&& r.arm_on_login == s.arm_on_login && r.armed == s.armed && r.consent_at == s.consent_at
            &&& r.skip_unchanged == s.skip_unchanged
            &&& repaired(r) == r
        }),
{
}

/// At first nothing is recorded and nothing was consented to, password managers
/// and prompts for passwords are excluded, and pictures that did not change are
/// passed over.
pub proof fn law_at_first_nothing_is_recorded()
    ensures
        ({
            let s = initial_settings();
            &&& !s.armed && !s.arm_on_login && s.consent_at == 0
            &&& s.byte_cap == 2_147_483_648 && s.cadence_ms == 3000 && s.idle_pause_sec == 120
            &&& s.skip_unchanged && s.title_pause_patterns.len() == 0
            &&& s.exclude_apps.len() == 11
            &&& s.exclude_apps.contains("keepassxc"@) && s.exclude_apps.contains("1Password"@)
            &&& s.exclude_apps.contains("Bitwarden"@) && s.exclude_apps.contains("bitwarden"@)
            &&& s.exclude_apps.contains("1password"@) && s.exclude_apps.contains("seahorse"@)
            &&& s.exclude_apps.contains("polkit-gnome-authentication-agent-1"@)
            &&& s.exclude_apps.contains("polkit-kde-authentication-agent-1"@)
            &&& s.exclude_apps.contains("lxqt-policykit-agent"@) && s.exclude_apps.contains("mate-polkit"@)
            &&& s.exclude_apps.contains("xfce-polkit"@)
        }),
{
    let l = usual_excludes();
    assert(l[0] == "keepassxc"@ && l[1] == "1Password"@ && l[2] == "1password"@ && l[3] == "Bitwarden"@ && l[4]
        == "bitwarden"@ && l[5] == "seahorse"@ && l[6] == "polkit-gnome-authentication-agent-1"@ && l[7]
        == "polkit-kde-authentication-agent-1"@ && l[8] == "lxqt-policykit-agent"@ && l[9] == "mate-polkit"@ && l[10]
        == "xfce-polkit"@);
}

/// A list can be asked for as one text with commas between its parts, or as a list
/// of texts; it then takes the place of the one that was, under whichever of its
/// names it comes, and the first name counts before the others.
pub proof fn law_lists_are_taken_over(s: SettingsRow, j: Json, n: Numbers, parts: Seq<Seq<char>>)
    requires
        parts.len() > 0,
        forall|i: int| 0 <= i < parts.len() ==> is_part(#[trigger] parts[i]),
    ensures
        ({
            let whole = Json::Text(joined(parts, seq![',']));
            let list = Json::List(parts.map_values(|p: Seq<char>| Json::Text(p)));
            let m = merged(s, j, n);
            let first = field_of(j, "excludeApps"@);
            let second = field_of(j, "exclude_apps"@);
            let third = field_of(j, "exclude"@);
            let one = field_of(j, "titlePausePatterns"@);
            let two = field_of(j, "title_pause_patterns"@);
            let three = field_of(j, "titlePause"@);
            &&& first == Some(whole) || first == Some(list) ==> m.exclude_apps == parts
            &&& first is None && (second == Some(whole) || second == Some(list)) ==> m.exclude_apps == parts
            &&& first is None && second is None && (third == Some(whole) || third == Some(list)) ==> m.exclude_apps == parts
            &&& one == Some(whole) || one == Some(list) ==> m.title_pause_patterns == parts
            &&& one is None && (two == Some(whole) || two == Some(list)) ==> m.title_pause_patterns == parts
            &&& one is None && two is None && (three == Some(whole) || three == Some(list)) ==> m.title_pause_patterns
                == parts
            &&& one == Some(Json::List(Seq::empty())) ==> m.title_pause_patterns.len() == 0
        }),
{
    lemma_parts_joined(parts);
    lemma_texts_listed(parts);
    assert(texts_in(Seq::<Json>::empty()) =~= Seq::<Seq<char>>::empty());
}

proof fn lemma_texts_listed(parts: Seq<Seq<char>>)
    requires
        forall|i: int| 0 <= i < parts.len() ==> is_part(#[trigger] parts[i]),
    ensures
        texts_in(parts.map_values(|p: Seq<char>| Json::Text(p))) == parts,
    decreases parts.len(),
{
    let f = |p: Seq<char>| Json::Text(p);
    let l = parts.map_values(f);
    if parts.len() > 0 {
        let d = parts.drop_last();
        assert forall|i: int| 0 <= i < d.len() implies is_part(#[trigger] d[i]) by {
            assert(d[i] == parts[i]);
        }
        lemma_texts_listed(d);
        assert(l.drop_last() =~= d.map_values(f));
        assert(is_part(parts[parts.len() - 1]));
        assert(d.push(parts.last()) =~= parts);
    } else {
        assert(texts_in(l) =~= parts);
    }
}

/// A switch that is asked for is set as it is asked for.
pub proof fn law_switches_are_taken_over(s: SettingsRow, j: Json, n: Numbers, on: bool)
    ensures
        field_of(j, "armOnLogin"@) == Some(Json::Bool(on)) ==> merged(s, j, n).arm_on_login == on,
        field_of(j, "skipUnchanged"@) == Some(Json::Bool(on)) ==> merged(s, j, n).skip_unchanged == on,
{
}

/// A whole number that is asked for is taken over: the interval and the time
/// without input where they are not too small, and the cap in bytes, or in
/// gigabytes where it is named so or is below a hundred and twenty-eight.
/// The number is written by a double whose leading binary digit stands at place
/// fifty-two once it is moved up by `x` places.
pub proof fn law_numbers_are_taken_over(s: SettingsRow, j: Json, n: Numbers, bits: u64, m: int, x: nat)
    requires
        x <= 52,
        0x10_0000_0000_0000 <= m * pow2(x) < 0x20_0000_0000_0000,
        bits == (1075 - x) * 0x10_0000_0000_0000 + (m * pow2(x) - 0x10_0000_0000_0000),
    ensures
        n.cadence_ms == Some(bits) ==> merged(s, j, n).cadence_ms == (if m >= 1000 { m } else { 1000 }),
        n.idle_pause_sec == Some(bits) ==> merged(s, j, n).idle_pause_sec == (if m >= 30 { m } else { 30 }),
        n.byte_cap == Some(bits) && m >= 128 && field_of(j, "byteCapGb"@) is None && field_of(j, "byte_cap_gb"@) is None
            ==> merged(s, j, n).byte_cap == m,
        n.byte_cap == Some(bits) && m < 128 ==> merged(s, j, n).byte_cap == m * 1_073_741_824,
        n.byte_cap == Some(bits) && m < 0x2_0000_0000 && (field_of(j, "byteCapGb"@) is Some || field_of(j, "byte_cap_gb"@)
            is Some) ==> merged(s, j, n).byte_cap == m * 1_073_741_824,
{
    lemma_pow2_pos(x);
    assert(0 < m < 0x20_0000_0000_0000) by (nonlinear_arith)
        requires
            0x10_0000_0000_0000 <= m * pow2(x) < 0x20_0000_0000_0000,
            pow2(x) > 0,
    ;
    lemma2_to64();
    float::law_whole_numbers_are_read(bits, m, x, 30, 0, 1000);
    float::law_whole_numbers_are_read(bits, m, x, 30, 0, 30);
    float::law_whole_numbers_are_read(bits, m, x, 30, 0, 128);
    float::law_whole_numbers_are_read(bits, m, x, 30, i64::MIN as int, i64::MAX as int);
}

/// Where a number stands under several of its names, the first that can be read
/// counts.
pub proof fn law_the_first_name_counts(j: Json, n: Number, read: spec_fn(Json) -> Option<u64>, i: int)
    requires
        0 <= i < n.keys().len(),
        field_of(j, n.keys()[i]) is Some,
        read(field_of(j, n.keys()[i]).unwrap()) is Some,
        forall|k: int| 0 <= k < i ==> field_of(j, #[trigger] n.keys()[k]) is None,
    ensures
        number_from(j, n, read) == read(field_of(j, n.keys()[i]).unwrap()),
{
    lemma_first_member(j, n.keys(), i);
    let ms = members(j, n.keys());
    assert(ms.map_values(read)[0] == read(ms[0]));
}

proof fn lemma_first_member(j: Json, keys: Seq<Seq<char>>, i: int)
    requires
        0 <= i < keys.len(),
        field_of(j, keys[i]) is Some,
        forall|k: int| 0 <= k < i ==> field_of(j, #[trigger] keys[k]) is None,
    ensures
        members(j, keys).len() > 0,
        members(j, keys)[0] == field_of(j, keys[i]).unwrap(),
    decreases keys.len(),
{
    let d = keys.drop_last();
    if i < d.len() {
        assert forall|k: int| 0 <= k < i implies field_of(j, #[trigger] d[k]) is None by {
            assert(d[k] == keys[k]);
        }
        lemma_first_member(j, d, i);
    } else {
        lemma_absent_members(j, d);
    }
}

proof fn lemma_absent_members(j: Json, keys: Seq<Seq<char>>)
    requires
        absent(j, keys),
    ensures
        members(j, keys).len() == 0,
    decreases keys.len(),
{
    if keys.len() > 0 {
        let d = keys.drop_last();
        assert(absent(j, d)) by {
            assert forall|i: int| 0 <= i < d.len() implies field_of(j, #[trigger] d[i]) is None by {
                assert(d[i] == keys[i]);
            }
        }
        lemma_absent_members(j, d);
        assert(field_of(j, keys[keys.len() - 1]) is None);
    }
}

/// The names that numbers can be asked for by.
pub proof fn law_the_names_of_numbers()
    ensures
        Number::ByteCap.keys() == seq!["byteCap"@, "byteCapGb"@, "byte_cap"@],
        Number::Cadence.keys() == seq!["cadenceMs"@, "cadence_ms"@],
        Number::IdlePause.keys() == seq!["idlePauseSec"@, "idle_pause_sec"@],
{
}

} // verus!
