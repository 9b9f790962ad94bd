//! What the command line asks for.
use crate::text::{self, copy_texts, joined, number_in, texts, views};
use vstd::prelude::*;

verus! {

/// What the command line asks for.
#[derive(Debug)]
pub enum Cli {
    Daemon,
    SelfTest,
    Wipe { scope: String, from: i64, to: i64 },
    Query { q: String },
    Stats,
    Linkage,
    Help,
    Version,
    /// Nothing that is known.
    Unknown { name: String },
}

/// What the command line asks for, as it is told.
pub enum Wish {
    Daemon,
    SelfTest,
    Wipe { scope: Seq<char>, from: i64, to: i64 },
    Query { q: Seq<char> },
    Stats,
    Linkage,
    Help,
    Version,
    Unknown { name: Seq<char> },
}

impl View for Cli {
    type V = Wish;

    open spec fn view(&self) -> Wish {
        match *self {
            Cli::Daemon => Wish::Daemon,
            Cli::SelfTest => Wish::SelfTest,
            Cli::Wipe { scope, from, to } => Wish::Wipe { scope: scope@, from, to },
            Cli::Query { q } => Wish::Query { q: q@ },
            Cli::Stats => Wish::Stats,
            Cli::Linkage => Wish::Linkage,
            Cli::Help => Wish::Help,
            Cli::Version => Wish::Version,
            Cli::Unknown { name } => Wish::Unknown { name: name@ },
        }
    }
}

/// The stamp that a text writes, or zero.
pub open spec fn stamp_in(s: Seq<char>) -> i64 {
    match number_in(s) {
        Some(n) => if i64::MIN <= n <= i64::MAX {
            n as i64
        } else {
            0
        },
        None => 0,
    }
}

/// The range that options name, from the one at `i` on. The last of several
/// counts; what is not known is passed over, as is an option without a value.
pub open spec fn range_from(args: Seq<Seq<char>>, i: int, from: i64, to: i64) -> (i64, i64)
    decreases args.len() - i,
{
    if i >= args.len() {
        (from, to)
    } else if args[i] == "--from"@ && i + 1 < args.len() {
        range_from(args, i + 2, stamp_in(args[i + 1]), to)
    } else if args[i] == "--to"@ && i + 1 < args.len() {
        range_from(args, i + 2, from, stamp_in(args[i + 1]))
    } else {
        range_from(args, i + 1, from, to)
    }
}

/// The wipe that arguments ask for: that of the current day where they name no
/// other scope.
pub open spec fn wipe_wish(args: Seq<Seq<char>>) -> Wish {
    let range = range_from(args, 1, 0, 0);
    Wish::Wipe {
        scope: if args.len() == 0 {
            "today"@
        } else {
            args[0]
        },
        from: range.0,
        to: range.1,
    }
}

/// What arguments ask for.
pub open spec fn wish(args: Seq<Seq<char>>) -> Wish {
    if args.len() == 0 || args[0] == "daemon"@ {
        Wish::Daemon
    } else if args[0] == "self-test"@ {
        Wish::SelfTest
    } else if args[0] == "wipe"@ {
        wipe_wish(args.skip(1))
    } else if args[0] == "query"@ {
        Wish::Query { q: joined(args.skip(1), " "@) }
    } else if args[0] == "stats"@ || args[0] == "status"@ {
        Wish::Stats
    } else if args[0] == "ldd-report"@ {
        Wish::Linkage
    } else if args[0] == "-h"@ || args[0] == "--help"@ || args[0] == "help"@ {
        Wish::Help
    } else if args[0] == "--version"@ || args[0] == "version"@ {
        Wish::Version
    } else {
        Wish::Unknown { name: args[0] }
    }
}

fn stamp(s: &str) -> (r: i64)
    ensures
        r == stamp_in(s@),
{
    let v = text::chars_of(s);
    match text::parse_i64(&v) {
        Some(n) => n,
        None => 0,
    }
}

fn rest(args: &Vec<String>) -> (r: Vec<String>)
    requires
        args@.len() > 0,
    ensures
        texts(r@) == texts(args@).skip(1),
{
    let mut r = copy_texts(args);
    let ghost all = texts(r@);
    r.remove(0);
    assert(texts(r@) =~= all.skip(1));
    r
}

/// The wipe that arguments ask for.
pub fn cli_wipe(args: &Vec<String>) -> (r: Cli)
    ensures
        r@ == wipe_wish(texts(args@)),
{
    let ghost a = texts(args@);
    let scope = if args.len() == 0 {
        "today".to_string()
    } else {
        args[0].clone()
    };
    let mut from: i64 = 0;
    let mut to: i64 = 0;
    let mut i: usize = 1;
    while i < args.len()
        invariant
            a == texts(args@),
            1 <= i,
            range_from(a, 1, 0, 0) == range_from(a, i as int, from, to),
        decreases args@.len() + 1 - i,
    {
        assert(a[i as int] == args@[i as int]@);
        let valued = i < args.len() - 1;
        if text::same(args[i].as_str(), "--from") && valued {
            assert(a[i + 1] == args@[i + 1]@);
            from = stamp(args[i + 1].as_str());
            i += 2;
        } else if text::same(args[i].as_str(), "--to") && valued {
            assert(a[i + 1] == args@[i + 1]@);
            to = stamp(args[i + 1].as_str());
            i += 2;
        } else {
            i += 1;
        }
    }
    Cli::Wipe { scope, from, to }
}

fn phrase(args: &Vec<String>) -> (r: String)
    ensures
        r@ == joined(texts(args@), " "@),
{
    let mut parts: Vec<Vec<char>> = Vec::new();
    let mut i: usize = 0;
    while i < args.len()
        invariant
            i <= args@.len(),
            views(parts@) == texts(args@).take(i as int),
        decreases args@.len() - i,
    {
        let ghost was = views(parts@);
        let part = text::chars_of(args[i].as_str());
        let ghost said = part@;
        parts.push(part);
        assert(views(parts@) =~= was.push(said));
        assert(was.push(said) =~= texts(args@).take(i + 1));
        i += 1;
    }
    assert(texts(args@).take(i as int) =~= texts(args@));
    text::join(&parts, " ")
}

/// What arguments ask for.
pub fn parse_args(args: &Vec<String>) -> (r: Cli)
    ensures
        r@ == wish(texts(args@)),
{
    if args.len() == 0 {
        return Cli::Daemon;
    }
    let ghost a = texts(args@);
    assert(a[0] == args@[0]@);
    let name = args[0].as_str();
    if text::same(name, "daemon") {
        Cli::Daemon
    } else if text::same(name, "self-test") {
        Cli::SelfTest
    } else if text::same(name, "wipe") {
        cli_wipe(&rest(args))
    } else if text::same(name, "query") {
        Cli::Query { q: phrase(&rest(args)) }
    } else if text::same(name, "stats") || text::same(name, "status") {
        Cli::Stats
    } else if text::same(name, "ldd-report") {
        Cli::Linkage
    } else if text::same(name, "-h") || text::same(name, "--help") || text::same(name, "help") {
        Cli::Help
    } else if text::same(name, "--version") || text::same(name, "version") {
        Cli::Version
    } else {
        Cli::Unknown { name: name.to_string() }
    }
}

proof fn lemma_words()
    ensures
        "daemon"@ != "self-test"@ && "daemon"@ != "wipe"@ && "daemon"@ != "query"@ && "daemon"@ != "stats"@ && "daemon"@ != "status"@ && "daemon"@ != "ldd-report"@ && "daemon"@ != "-h"@ && "daemon"@ != "--help"@ && "daemon"@ != "help"@ && "daemon"@ != "--version"@ && "daemon"@ != "version"@,
        "self-test"@ != "wipe"@ && "self-test"@ != "query"@ && "self-test"@ != "stats"@ && "self-test"@ != "status"@ && "self-test"@ != "ldd-report"@ && "self-test"@ != "-h"@ && "self-test"@ != "--help"@ && "self-test"@ != "help"@ && "self-test"@ != "--version"@ && "self-test"@ != "version"@,
        "wipe"@ != "query"@ && "wipe"@ != "stats"@ && "wipe"@ != "status"@ && "wipe"@ != "ldd-report"@ && "wipe"@ != "-h"@ && "wipe"@ != "--help"@ && "wipe"@ != "help"@ && "wipe"@ != "--version"@ && "wipe"@ != "version"@,
        "query"@ != "stats"@ && "query"@ != "status"@ && "query"@ != "ldd-report"@ && "query"@ != "-h"@ && "query"@ != "--help"@ && "query"@ != "help"@ && "query"@ != "--version"@ && "query"@ != "version"@,
        "stats"@ != "status"@ && "stats"@ != "ldd-report"@ && "stats"@ != "-h"@ && "stats"@ != "--help"@ && "stats"@ != "help"@ && "stats"@ != "--version"@ && "stats"@ != "version"@,
        "status"@ != "ldd-report"@ && "status"@ != "-h"@ && "status"@ != "--help"@ && "status"@ != "help"@ && "status"@ != "--version"@ && "status"@ != "version"@,
        "ldd-report"@ != "-h"@ && "ldd-report"@ != "--help"@ && "ldd-report"@ != "help"@ && "ldd-report"@ != "--version"@ && "ldd-report"@ != "version"@,
        "-h"@ != "--help"@ && "-h"@ != "help"@ && "-h"@ != "--version"@ && "-h"@ != "version"@,
        "--help"@ != "help"@ && "--help"@ != "--version"@ && "--help"@ != "version"@,
        "help"@ != "--version"@ && "help"@ != "version"@,
        "--version"@ != "version"@,
{
    reveal_strlit("daemon");
    reveal_strlit("self-test");
    reveal_strlit("wipe");
    reveal_strlit("query");
    reveal_strlit("stats");
    reveal_strlit("status");
    reveal_strlit("ldd-report");
    reveal_strlit("-h");
    reveal_strlit("--help");
    reveal_strlit("help");
    reveal_strlit("--version");
    reveal_strlit("version");
    assert("daemon"@.len() != "self-test"@.len());
    assert("daemon"@.len() != "wipe"@.len());
    assert("daemon"@.len() != "query"@.len());
    assert("daemon"@.len() != "stats"@.len());
    assert("daemon"@[0] != "status"@[0]);
    assert("daemon"@.len() != "ldd-report"@.len());
    assert("daemon"@.len() != "-h"@.len());
    assert("daemon"@[0] != "--help"@[0]);
    assert("daemon"@.len() != "help"@.len());
    assert("daemon"@.len() != "--version"@.len());
    assert("daemon"@.len() != "version"@.len());
    assert("self-test"@.len() != "wipe"@.len());
    assert("self-test"@.len() != "query"@.len());
    assert("self-test"@.len() != "stats"@.len());
    assert("self-test"@.len() != "status"@.len());
    assert("self-test"@.len() != "ldd-report"@.len());
    assert("self-test"@.len() != "-h"@.len());
    assert("self-test"@.len() != "--help"@.len());
    assert("self-test"@.len() != "help"@.len());
    assert("self-test"@[0] != "--version"@[0]);
    assert("self-test"@.len() != "version"@.len());
    assert("wipe"@.len() != "query"@.len());
    assert("wipe"@.len() != "stats"@.len());
    assert("wipe"@.len() != "status"@.len());
    assert("wipe"@.len() != "ldd-report"@.len());
    assert("wipe"@.len() != "-h"@.len());
    assert("wipe"@.len() != "--help"@.len());
    assert("wipe"@[0] != "help"@[0]);
    assert("wipe"@.len() != "--version"@.len());
    assert("wipe"@.len() != "version"@.len());
    assert("query"@[0] != "stats"@[0]);
    assert("query"@.len() != "status"@.len());
    assert("query"@.len() != "ldd-report"@.len());
    assert("query"@.len() != "-h"@.len());
    assert("query"@.len() != "--help"@.len());
    assert("query"@.len() != "help"@.len());
    assert("query"@.len() != "--version"@.len());
    assert("query"@.len() != "version"@.len());
    assert("stats"@.len() != "status"@.len());
    assert("stats"@.len() != "ldd-report"@.len());
    assert("stats"@.len() != "-h"@.len());
    assert("stats"@.len() != "--help"@.len());
    assert("stats"@.len() != "help"@.len());
    assert("stats"@.len() != "--version"@.len());
    assert("stats"@.len() != "version"@.len());
    assert("status"@.len() != "ldd-report"@.len());
    assert("status"@.len() != "-h"@.len());
    assert("status"@[0] != "--help"@[0]);
    assert("status"@.len() != "help"@.len());
    assert("status"@.len() != "--version"@.len());
    assert("status"@.len() != "version"@.len());
    assert("ldd-report"@.len() != "-h"@.len());
    assert("ldd-report"@.len() != "--help"@.len());
    assert("ldd-report"@.len() != "help"@.len());
    assert("ldd-report"@.len() != "--version"@.len());
    assert("ldd-report"@.len() != "version"@.len());
    assert("-h"@.len() != "--help"@.len());
    assert("-h"@.len() != "help"@.len());
    assert("-h"@.len() != "--version"@.len());
    assert("-h"@.len() != "version"@.len());
    assert("--help"@.len() != "help"@.len());
    assert("--help"@.len() != "--version"@.len());
    assert("--help"@.len() != "version"@.len());
    assert("help"@.len() != "--version"@.len());
    assert("help"@.len() != "version"@.len());
    assert("--version"@.len() != "version"@.len());
}

/// Each word asks for what it names, whatever comes after it; without a word the
/// daemon runs, and a word that is not known is told back.
pub proof fn law_words_ask_for_what_they_name(rest: Seq<Seq<char>>, other: Seq<char>)
    requires
        !seq![
            "daemon"@,
            "self-test"@,
            "wipe"@,
            "query"@,
            "stats"@,
            "status"@,
            "ldd-report"@,
            "-h"@,
            "--help"@,
            "help"@,
            "--version"@,
            "version"@,
        ].contains(other),
    ensures
        wish(Seq::<Seq<char>>::empty()) is Daemon,
        wish(seq!["daemon"@] + rest) is Daemon,
        wish(seq!["self-test"@] + rest) is SelfTest,
        wish(seq!["query"@] + rest) == (Wish::Query { q: joined(rest, " "@) }),
        wish(seq!["stats"@] + rest) is Stats,
        wish(seq!["status"@] + rest) is Stats,
        wish(seq!["ldd-report"@] + rest) is Linkage,
        wish(seq!["-h"@] + rest) is Help,
        wish(seq!["--help"@] + rest) is Help,
        wish(seq!["help"@] + rest) is Help,
        wish(seq!["--version"@] + rest) is Version,
        wish(seq!["version"@] + rest) is Version,
        wish(seq![other] + rest) == (Wish::Unknown { name: other }),
{
    lemma_words();
    assert((seq!["query"@] + rest).skip(1) =~= rest);
    let known = seq![
        "daemon"@,
        "self-test"@,
        "wipe"@,
        "query"@,
        "stats"@,
        "status"@,
        "ldd-report"@,
        "-h"@,
        "--help"@,
        "help"@,
        "--version"@,
        "version"@,
    ];
    assert(known[0] != other && known[1] != other && known[2] != other && known[3] != other && known[4] != other
        && known[5] != other && known[6] != other && known[7] != other && known[8] != other && known[9] != other
        && known[10] != other && known[11] != other);
}

/// Options that come in pairs of a name and a value.
pub open spec fn paired(args: Seq<Seq<char>>) -> bool {
    &&& args.len() % 2 == 0
    &&& forall|i: int| 0 <= i < args.len() && i % 2 == 0 ==> (#[trigger] args[i] == "--from"@ || args[i] == "--to"@)
}

/// A wipe takes its scope from the first argument, and the current day without
/// one. Of the options the last of each kind counts; where one is missing its end
/// of the range is zero.
pub proof fn law_what_a_wipe_takes(scope: Seq<char>, options: Seq<Seq<char>>, value: Seq<char>)
    requires
        paired(options),
    ensures
        wish(seq!["wipe"@]) == (Wish::Wipe { scope: "today"@, from: 0, to: 0 }),
        wish(seq!["wipe"@, scope]) == (Wish::Wipe { scope, from: 0, to: 0 }),
        ({
            let before = wish(seq!["wipe"@, scope] + options);
            let from = wish(seq!["wipe"@, scope] + options + seq!["--from"@, value]);
            let to = wish(seq!["wipe"@, scope] + options + seq!["--to"@, value]);
            &&& before matches Wish::Wipe { scope: s0, from: a0, to: b0 }
            &&& from matches Wish::Wipe { scope: s1, from: a1, to: b1 }
            &&& to matches Wish::Wipe { scope: s2, from: a2, to: b2 }
            &&& s0 == scope && s1 == scope && s2 == scope
            &&& b1 == b0 && a2 == a0
            &&& number_in(value) matches Some(n) ==> (i64::MIN <= n <= i64::MAX ==> a1 == n && b2 == n)
            &&& number_in(value) is None ==> a1 == 0 && b2 == 0
        }),
{
    lemma_words();
    reveal_strlit("--from");
    reveal_strlit("--to");
    assert("--from"@.len() != "--to"@.len());
    assert(seq!["wipe"@].skip(1).len() == 0);
    assert(seq!["wipe"@, scope].skip(1) =~= seq![scope]);
    let given = seq![scope] + options;
    assert((seq!["wipe"@, scope] + options).skip(1) =~= given);
    assert((seq!["wipe"@, scope] + options + seq!["--from"@, value]).skip(1) =~= given + seq!["--from"@, value]);
    assert((seq!["wipe"@, scope] + options + seq!["--to"@, value]).skip(1) =~= given + seq!["--to"@, value]);
    assert forall|i: int| 1 <= i < given.len() && (i - 1) % 2 == 0 implies (#[trigger] given[i] == "--from"@ || given[i]
        == "--to"@) by {
        assert(given[i] == options[i - 1]);
    }
    assert(given.len() == options.len() + 1);
    lemma_range_more(given, "--from"@, value, 1, 0, 0);
    lemma_range_more(given, "--to"@, value, 1, 0, 0);
}

proof fn lemma_range_more(args: Seq<Seq<char>>, name: Seq<char>, value: Seq<char>, i: int, from: i64, to: i64)
    requires
        1 <= i <= args.len(),
        (args.len() - i) % 2 == 0,
        name == "--from"@ || name == "--to"@,
        "--from"@ != "--to"@,
        forall|j: int|
            1 <= j < args.len() && (j - i) % 2 == 0 ==> (#[trigger] args[j] == "--from"@ || args[j] == "--to"@),
    ensures
        ({
            let r = range_from(args, i, from, to);
            range_from(args + seq![name, value], i, from, to) == (if name == "--from"@ {
                (stamp_in(value), r.1)
            } else {
                (r.0, stamp_in(value))
            })
        }),
    decreases args.len() - i,
{
    let more = args + seq![name, value];
    if i == args.len() {
        assert(more[i] == name && more[i + 1] == value);
        reveal_with_fuel(range_from, 2);
    } else {
        assert((i - i) % 2 == 0);
        assert(args[i] == "--from"@ || args[i] == "--to"@);
        assert(i + 1 < args.len());
        assert(more[i] == args[i] && more[i + 1] == args[i + 1]);
        assert forall|j: int| 1 <= j < args.len() && (j - (i + 2)) % 2 == 0 implies (#[trigger] args[j] == "--from"@
            || args[j] == "--to"@) by {
            assert((j - i) % 2 == 0);
        }
        if args[i] == "--from"@ {
            lemma_range_more(args, name, value, i + 2, stamp_in(args[i + 1]), to);
        } else {
            lemma_range_more(args, name, value, i + 2, from, stamp_in(args[i + 1]));
        }
    }
}

} // verus!
