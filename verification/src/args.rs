//! The command line: which argument sets what, and what the tool has to do
//! with the values it was given (folders to walk, numbers to read, help to
//! print).

use vstd::prelude::*;
use crate::text::{same_text, parse_i32, spec_parse_i32};

verus! {

/// What the next plain argument is taken for, after the last option.
#[derive(Clone, Copy, PartialEq, Eq, Structural, Debug)]
pub enum Pending {
    /// Nothing: the argument is ignored.
    Nothing,
    /// A file or folder to normalise (`-i`); stays in force for the arguments that follow.
    Inputs,
    /// The output folder (`-o`).
    Output,
    /// The number of worker threads (`-nt`).
    Threads,
    /// The target loudness (`-l`).
    Loudness,
    /// A track gain to set (`-st`).
    TrackGain,
    /// An album gain to set (`-sa`).
    AlbumGain,
    /// The next argument prints the help text (`-h`).
    Help,
}

/// The bit that `-show` sets in the action mask: open the output folder at the end.
pub const SHOW_BIT: i32 = 1;
/// Shut the machine down at the end (`-sd`).
pub const SHUTDOWN_BIT: i32 = 2;
/// Hibernate at the end (`-hi`).
pub const HIBERNATE_BIT: i32 = 4;
/// Put the machine to sleep at the end (`-sl`).
pub const SLEEP_BIT: i32 = 8;
/// Remove the replay-gain tags (`-r`).
pub const REMOVE_BIT: i32 = 16;
/// Normalise albums, grouped by their album tag (`-a`).
pub const ALBUM_BIT: i32 = 32;
/// Normalise all inputs as one album (`-ad`).
pub const ALBUM_DIR_BIT: i32 = 64;
/// Set the track gain to a given value (`-st`).
pub const SET_TRACK_BIT: i32 = 128;
/// Set the album gain to a given value (`-sa`).
pub const SET_ALBUM_BIT: i32 = 256;
/// Print the help text and stop.
pub const HELP_BIT: i32 = 512;

/// The option that an argument names, and the argument it makes the next one.
pub open spec fn pending_for_option(arg: Seq<char>) -> Option<Pending> {
    if arg == "-i"@ {
        Some(Pending::Inputs)
    } else if arg == "-o"@ {
        Some(Pending::Output)
    } else if arg == "-nt"@ {
        Some(Pending::Threads)
    } else if arg == "-l"@ {
        Some(Pending::Loudness)
    } else if arg == "-st"@ {
        Some(Pending::TrackGain)
    } else if arg == "-sa"@ {
        Some(Pending::AlbumGain)
    } else if arg == "-h"@ {
        Some(Pending::Help)
    } else {
        None
    }
}

/// The bit of the action mask that an argument sets, for the options that set one.
pub open spec fn bit_for_switch(arg: Seq<char>) -> Option<i32> {
    if arg == "-r"@ {
        Some(REMOVE_BIT)
    } else if arg == "-a"@ {
        Some(ALBUM_BIT)
    } else if arg == "-ad"@ {
        Some(ALBUM_DIR_BIT)
    } else if arg == "-show"@ {
        Some(SHOW_BIT)
    } else if arg == "-sd"@ {
        Some(SHUTDOWN_BIT)
    } else if arg == "-hi"@ {
        Some(HIBERNATE_BIT)
    } else if arg == "-sl"@ {
        Some(SLEEP_BIT)
    } else {
        None
    }
}

/// The settings read so far, as plain values.
pub struct Settings {
    pub pending: Pending,
    pub dest: Seq<char>,
    pub num_th: i32,
    pub actions: i32,
    pub loudness: Option<Seq<char>>,
    pub rg_set: Option<Seq<char>>,
}

/// What the tool has to do for one argument, as plain values.
pub enum Request {
    Inputs(Seq<char>),
    Help,
    Loudness(Seq<char>),
    TrackGain(Seq<char>),
    AlbumGain(Seq<char>),
}

/// The settings before any argument: no output folder (`$$$`), one thread,
/// no action.
pub open spec fn initial_settings() -> Settings {
    Settings {
        pending: Pending::Nothing,
        dest: "$$$"@,
        num_th: 1,
        actions: 0,
        loudness: None,
        rg_set: None,
    }
}

/// The settings after one more argument; `None` where the argument was to be
/// the thread count and is no `i32`.
pub open spec fn next_settings(s: Settings, arg: Seq<char>) -> Option<Settings> {
    match pending_for_option(arg) {
        Some(p) => Some(Settings { pending: p, ..s }),
        None => match bit_for_switch(arg) {
            Some(b) => Some(Settings { actions: s.actions | b, ..s }),
            None => match s.pending {
                Pending::Nothing => Some(s),
                Pending::Inputs => Some(s),
                Pending::Output => Some(Settings { dest: arg, pending: Pending::Nothing, ..s }),
                Pending::Threads => match spec_parse_i32(arg) {
                    Some(n) => Some(Settings { num_th: n, pending: Pending::Nothing, ..s }),
                    None => None,
                },
                Pending::Loudness => Some(
                    Settings { loudness: Some(arg), pending: Pending::Nothing, ..s },
                ),
                Pending::TrackGain => Some(
                    Settings {
                        rg_set: Some(arg),
                        actions: s.actions | SET_TRACK_BIT,
                        pending: Pending::Nothing,
                        ..s
                    },
                ),
                Pending::AlbumGain => Some(
                    Settings {
                        rg_set: Some(arg),
                        actions: s.actions | SET_ALBUM_BIT,
                        pending: Pending::Nothing,
                        ..s
                    },
                ),
                Pending::Help => Some(Settings { pending: Pending::Nothing, ..s }),
            },
        },
    }
}

/// What the tool has to do for one argument, given the settings before it.
pub open spec fn request_for(s: Settings, arg: Seq<char>) -> Option<Request> {
    if pending_for_option(arg) is Some || bit_for_switch(arg) is Some {
        None
    } else {
        match s.pending {
            Pending::Inputs => Some(Request::Inputs(arg)),
            Pending::Loudness => Some(Request::Loudness(arg)),
            Pending::TrackGain => Some(Request::TrackGain(arg)),
            Pending::AlbumGain => Some(Request::AlbumGain(arg)),
            Pending::Help => Some(Request::Help),
            _ => None,
        }
    }
}

/// The outcome of a whole command line: the settings, the requests in the
/// order of the arguments, and the argument at which reading stopped, where
/// one was to be the thread count and is no `i32`.
pub open spec fn scan(args: Seq<Seq<char>>) -> (Settings, Seq<Request>, Option<Seq<char>>)
    decreases args.len(),
{
    if args.len() == 0 {
        (initial_settings(), Seq::empty(), None)
    } else {
        let (s, reqs, stopped) = scan(args.drop_last());
        if stopped is Some {
            (s, reqs, stopped)
        } else {
            match next_settings(s, args.last()) {
                None => (s, reqs, Some(args.last())),
                Some(s2) => match request_for(s, args.last()) {
                    Some(r) => (s2, reqs.push(r), None),
                    None => (s2, reqs, None),
                },
            }
        }
    }
}

/// Something the tool has to do for an argument, in the order of the arguments.
#[derive(Debug)]
pub enum ArgEvent {
    /// A file, or a folder to walk for `.mp3` files, to add to the inputs.
    Inputs(String),
    /// Print the help text.
    Help,
    /// The target loudness, as written; it must read as a float.
    Loudness(String),
    /// The track gain to set, as written; it must read as a float.
    TrackGain(String),
    /// The album gain to set, as written; it must read as a float.
    AlbumGain(String),
}

impl View for ArgEvent {
    type V = Request;

    open spec fn view(&self) -> Request {
        match self {
            ArgEvent::Inputs(a) => Request::Inputs(a@),
            ArgEvent::Help => Request::Help,
            ArgEvent::Loudness(a) => Request::Loudness(a@),
            ArgEvent::TrackGain(a) => Request::TrackGain(a@),
            ArgEvent::AlbumGain(a) => Request::AlbumGain(a@),
        }
    }
}

/// The settings read from the arguments so far.
pub struct ArgParser {
    pub pending: Pending,
    pub dest: String,
    pub num_th: i32,
    pub actions: i32,
    pub loudness: Option<String>,
    pub rg_set: Option<String>,
}

pub open spec fn opt_view(o: Option<String>) -> Option<Seq<char>> {
    match o {
        Some(t) => Some(t@),
        None => None,
    }
}

impl View for ArgParser {
    type V = Settings;

    open spec fn view(&self) -> Settings {
        Settings {
            pending: self.pending,
            dest: self.dest@,
            num_th: self.num_th,
            actions: self.actions,
            loudness: opt_view(self.loudness),
            rg_set: opt_view(self.rg_set),
        }
    }
}

fn option_named(arg: &str) -> (p: Option<Pending>)
    ensures
        p == pending_for_option(arg@),
{
    if same_text(arg, "-i") {
        Some(Pending::Inputs)
    } else if same_text(arg, "-o") {
        Some(Pending::Output)
    } else if same_text(arg, "-nt") {
        Some(Pending::Threads)
    } else if same_text(arg, "-l") {
        Some(Pending::Loudness)
    } else if same_text(arg, "-st") {
        Some(Pending::TrackGain)
    } else if same_text(arg, "-sa") {
        Some(Pending::AlbumGain)
    } else if same_text(arg, "-h") {
        Some(Pending::Help)
    } else {
        None
    }
}

fn switch_bit(arg: &str) -> (b: Option<i32>)
    ensures
        b == bit_for_switch(arg@),
{
    if same_text(arg, "-r") {
        Some(REMOVE_BIT)
    } else if same_text(arg, "-a") {
        Some(ALBUM_BIT)
    } else if same_text(arg, "-ad") {
        Some(ALBUM_DIR_BIT)
    } else if same_text(arg, "-show") {
        Some(SHOW_BIT)
    } else if same_text(arg, "-sd") {
        Some(SHUTDOWN_BIT)
    } else if same_text(arg, "-hi") {
        Some(HIBERNATE_BIT)
    } else if same_text(arg, "-sl") {
        Some(SLEEP_BIT)
    } else {
        None
    }
}

impl ArgParser {
    /// The settings before any argument.
    pub fn new() -> (p: ArgParser)
        ensures
            p@ == initial_settings(),
    {
        ArgParser {
            pending: Pending::Nothing,
            dest: "$$$".to_owned(),
            num_th: 1,
            actions: 0,
            loudness: None,
            rg_set: None,
        }
    }

    /// Whether the next argument is accepted: everything is, but for a thread
    /// count that is no `i32`.
    pub fn accepts(&self, arg: &str) -> (ok: bool)
        ensures
            ok == next_settings(self@, arg@) is Some,
    {
        if option_named(arg).is_some() || switch_bit(arg).is_some() {
            return true;
        }
        match self.pending {
            Pending::Threads => parse_i32(arg).is_some(),
            _ => true,
        }
    }

    /// Reads one more argument, which must be accepted (see `accepts`), and
    /// gives back what the tool has to do for it.
    pub fn step(&mut self, arg: String) -> (r: Option<ArgEvent>)
        requires
            next_settings(old(self)@, arg@) is Some,
        ensures
            final(self)@ == next_settings(old(self)@, arg@).unwrap(),
            match r {
                Some(e) => request_for(old(self)@, arg@) == Some(e@),
                None => request_for(old(self)@, arg@) is None,
            },
    {
        if let Some(p) = option_named(arg.as_str()) {
            self.pending = p;
            return None;
        }
        if let Some(b) = switch_bit(arg.as_str()) {
            self.actions = self.actions | b;
            return None;
        }
        match self.pending {
            Pending::Nothing => None,
            Pending::Inputs => Some(ArgEvent::Inputs(arg)),
            Pending::Output => {
                self.dest = arg;
                self.pending = Pending::Nothing;
                None
            },
            Pending::Threads => {
                match parse_i32(arg.as_str()) {
                    Some(n) => {
                        self.num_th = n;
                        self.pending = Pending::Nothing;
                    },
                    None => {},
                }
                None
            },
            Pending::Loudness => {
                self.loudness = Some(arg.clone());
                self.pending = Pending::Nothing;
                Some(ArgEvent::Loudness(arg))
            },
            Pending::TrackGain => {
                self.rg_set = Some(arg.clone());
                self.actions = self.actions | SET_TRACK_BIT;
                self.pending = Pending::Nothing;
                Some(ArgEvent::TrackGain(arg))
            },
            Pending::AlbumGain => {
                self.rg_set = Some(arg.clone());
                self.actions = self.actions | SET_ALBUM_BIT;
                self.pending = Pending::Nothing;
                Some(ArgEvent::AlbumGain(arg))
            },
            Pending::Help => {
                self.pending = Pending::Nothing;
                Some(ArgEvent::Help)
            },
        }
    }
}

/// The text of each argument.
pub open spec fn texts(args: Seq<String>) -> Seq<Seq<char>> {
    args.map_values(|a: String| a@)
}

/// What each event asks for.
pub open spec fn requests(events: Seq<ArgEvent>) -> Seq<Request> {
    events.map_values(|e: ArgEvent| e@)
}

/// Once reading has stopped, the arguments after change nothing.
pub proof fn lemma_scan_stops(args: Seq<Seq<char>>, k: int)
    requires
        0 <= k <= args.len(),
        scan(args.take(k)).2 is Some,
    ensures
        scan(args) == scan(args.take(k)),
    decreases args.len() - k,
{
    if k < args.len() {
        let longer = args.take(k + 1);
        assert(longer.drop_last() =~= args.take(k));
        assert(scan(longer) == scan(args.take(k)));
        assert(longer.take(k + 1) =~= longer);
        lemma_scan_stops(args, k + 1);
    } else {
        assert(args.take(k) =~= args);
    }
}

/// A whole command line, read.
pub struct ArgScan {
    /// The settings after the last argument.
    pub settings: ArgParser,
    /// What the tool has to do, argument by argument.
    pub events: Vec<ArgEvent>,
}

/// Where a command line holds a thread count that is no `i32`, the position
/// of the first: reading stops there (the tool gives up at that argument), and
/// the arguments after it change nothing.
pub fn refused_thread_count(args: &Vec<String>) -> (position: Option<usize>)
    ensures
        match position {
            Some(k) => {
                &&& k < args.len()
                &&& scan(texts(args@.take(k as int))).2 is None
                &&& scan(texts(args@.take(k + 1))).2 == Some(args@[k as int]@)
                &&& scan(texts(args@)) == scan(texts(args@.take(k + 1)))
            },
            None => scan(texts(args@)).2 is None,
        },
{
    let mut parser = ArgParser::new();
    let n = args.len();
    let mut i: usize = 0;
    assert(texts(args@.take(0)) =~= Seq::<Seq<char>>::empty());
    while i < n
        invariant
            n == args.len(),
            i <= n,
            scan(texts(args@.take(i as int))).2 is None,
            scan(texts(args@.take(i as int))).0 == parser@,
        decreases n - i,
    {
        let arg = args[i].clone();
        let ghost seen = texts(args@.take(i as int));
        assert(texts(args@.take(i + 1)) =~= seen.push(arg@));
        assert(seen.push(arg@).drop_last() =~= seen);
        if !parser.accepts(arg.as_str()) {
            proof {
                assert(texts(args@.take(i + 1)) =~= texts(args@).take(i + 1));
                lemma_scan_stops(texts(args@), i + 1);
            }
            return Some(i);
        }
        parser.step(arg);
        i = i + 1;
    }
    assert(args@.take(n as int) =~= args@);
    None
}

/// Reads the whole command line (the program name first, which no option
/// names, so it changes nothing). Every thread count on it must be an `i32`
/// (see `refused_thread_count`).
pub fn parse_args(args: &Vec<String>) -> (r: ArgScan)
    requires
        scan(texts(args@)).2 is None,
    ensures
        scan(texts(args@)) == (r.settings@, requests(r.events@), None::<Seq<char>>),
{
    let mut parser = ArgParser::new();
    let mut events: Vec<ArgEvent> = Vec::new();
    let n = args.len();
    let mut i: usize = 0;
    assert(texts(args@.take(0)) =~= Seq::<Seq<char>>::empty());
    assert(requests(events@) =~= Seq::<Request>::empty());
    while i < n
        invariant
            n == args.len(),
            i <= n,
            scan(texts(args@)).2 is None,
            scan(texts(args@.take(i as int))) == (parser@, requests(events@), None::<Seq<char>>),
        decreases n - i,
    {
        let arg = args[i].clone();
        let ghost seen = texts(args@.take(i as int));
        assert(texts(args@.take(i + 1)) =~= seen.push(arg@));
        assert(seen.push(arg@).drop_last() =~= seen);
        proof {
            if next_settings(parser@, arg@) is None {
                assert(texts(args@.take(i + 1)) =~= texts(args@).take(i + 1));
                lemma_scan_stops(texts(args@), i + 1);
            }
        }
        match parser.step(arg) {
            Some(e) => {
                events.push(e);
                assert(requests(events@) =~= requests(events@.drop_last()).push(e@));
            },
            None => {},
        }
        i = i + 1;
    }
    assert(args@.take(n as int) =~= args@);
    ArgScan { settings: parser, events }
}

/// One argument never clears a bit of the action mask, and a switch sets its own.
pub proof fn law_step_keeps_bits(s: Settings, arg: Seq<char>)
    ensures
        next_settings(s, arg) matches Some(s2) ==> s2.actions & s.actions == s.actions,
        next_settings(s, arg) matches Some(s2) ==> (bit_for_switch(arg) matches Some(b) ==> s2.actions
            & b == b),
{
    let a = s.actions;
    lemma_switches_are_no_options(arg);
    assert(a & a == a) by (bit_vector);
    lemma_or_keeps(a, SHOW_BIT);
    lemma_or_keeps(a, SHUTDOWN_BIT);
    lemma_or_keeps(a, HIBERNATE_BIT);
    lemma_or_keeps(a, SLEEP_BIT);
    lemma_or_keeps(a, REMOVE_BIT);
    lemma_or_keeps(a, ALBUM_BIT);
    lemma_or_keeps(a, ALBUM_DIR_BIT);
    lemma_or_keeps(a, SET_TRACK_BIT);
    lemma_or_keeps(a, SET_ALBUM_BIT);
}

/// No argument is both an option that takes a value and a switch.
pub proof fn lemma_switches_are_no_options(arg: Seq<char>)
    ensures
        bit_for_switch(arg) is Some ==> pending_for_option(arg) is None,
{
    reveal_strlit("-i");
    reveal_strlit("-o");
    reveal_strlit("-nt");
    reveal_strlit("-l");
    reveal_strlit("-st");
    reveal_strlit("-sa");
    reveal_strlit("-h");
    reveal_strlit("-r");
    reveal_strlit("-a");
    reveal_strlit("-ad");
    reveal_strlit("-show");
    reveal_strlit("-sd");
    reveal_strlit("-hi");
    reveal_strlit("-sl");
    if bit_for_switch(arg) is Some {
        assert(arg.len() >= 2 && arg[0] == '-');
        if arg.len() == 2 {
            assert(arg[1] == 'r' || arg[1] == 'a');
        } else if arg.len() == 3 {
            assert(arg[1] == 'a' || arg[1] == 's' || arg[1] == 'h');
            assert(arg[2] == 'd' || arg[2] == 'i' || arg[2] == 'l');
        }
    }
}

proof fn lemma_or_keeps(a: i32, b: i32)
    ensures
        (a | b) & a == a,
        (a | b) & b == b,
{
    assert((a | b) & a == a && (a | b) & b == b) by (bit_vector);
}

proof fn lemma_and_trans(x: i32, y: i32, b: i32)
    requires
        x & y == y,
        y & b == b,
    ensures
        x & b == b,
{
    assert(x & y == y && y & b == b ==> x & b == b) by (bit_vector);
}

/// When a whole command line is read without stopping, every switch on it has
/// its bit set in the final action mask.
pub proof fn law_switches_set_their_bits(args: Seq<Seq<char>>)
    ensures
        scan(args).2 is None ==> forall|k: int|
            0 <= k < args.len() ==> (#[trigger] bit_for_switch(args[k]) matches Some(b) ==> scan(
                args,
            ).0.actions & b == b),
    decreases args.len(),
{
    if args.len() > 0 && scan(args).2 is None {
        let prefix = args.drop_last();
        law_switches_set_their_bits(prefix);
        let (s, reqs, stopped) = scan(prefix);
        assert(stopped is None);
        law_step_keeps_bits(s, args.last());
        let s2 = next_settings(s, args.last()).unwrap();
        assert forall|k: int|
            0 <= k < args.len() implies (#[trigger] bit_for_switch(args[k]) matches Some(b) ==> scan(
                args,
            ).0.actions & b == b) by {
            if let Some(b) = bit_for_switch(args[k]) {
                if k < args.len() - 1 {
                    assert(prefix[k] == args[k]);
                    lemma_and_trans(s2.actions, s.actions, b);
                }
            }
        }
    }
}

/// Each switch sets its own documented bit of the action mask, whatever the
/// settings before it, and changes nothing else: `-show` 1, `-sd` 2, `-hi` 4,
/// `-sl` 8, `-r` 16, `-a` 32, `-ad` 64; no two switches share a bit.
pub proof fn law_switch_bits(s: Settings)
    ensures
        next_settings(s, "-show"@) == Some(Settings { actions: s.actions | 1, ..s }),
        next_settings(s, "-sd"@) == Some(Settings { actions: s.actions | 2, ..s }),
        next_settings(s, "-hi"@) == Some(Settings { actions: s.actions | 4, ..s }),
        next_settings(s, "-sl"@) == Some(Settings { actions: s.actions | 8, ..s }),
        next_settings(s, "-r"@) == Some(Settings { actions: s.actions | 16, ..s }),
        next_settings(s, "-a"@) == Some(Settings { actions: s.actions | 32, ..s }),
        next_settings(s, "-ad"@) == Some(Settings { actions: s.actions | 64, ..s }),
        request_for(s, "-show"@) is None && request_for(s, "-ad"@) is None && request_for(s, "-a"@)
            is None && request_for(s, "-r"@) is None && request_for(s, "-sd"@) is None
            && request_for(s, "-hi"@) is None && request_for(s, "-sl"@) is None,
{
    reveal_strlit("-i");
    reveal_strlit("-o");
    reveal_strlit("-nt");
    reveal_strlit("-l");
    reveal_strlit("-st");
    reveal_strlit("-sa");
    reveal_strlit("-h");
    reveal_strlit("-r");
    reveal_strlit("-a");
    reveal_strlit("-ad");
    reveal_strlit("-show");
    reveal_strlit("-sd");
    reveal_strlit("-hi");
    reveal_strlit("-sl");
    assert("-a"@ != "-r"@) by {
        assert("-a"@[1] != "-r"@[1]);
    }
    assert("-ad"@ != "-r"@ && "-ad"@ != "-a"@) by {
        assert("-ad"@.len() != "-r"@.len());
    }
    assert("-show"@ != "-r"@ && "-show"@ != "-a"@ && "-show"@ != "-ad"@) by {
        assert("-show"@.len() == 5);
    }
    assert("-sd"@ != "-r"@ && "-sd"@ != "-a"@ && "-sd"@ != "-ad"@ && "-sd"@ != "-show"@) by {
        assert("-sd"@[1] != "-ad"@[1]);
    }
    assert("-hi"@ != "-r"@ && "-hi"@ != "-a"@ && "-hi"@ != "-ad"@ && "-hi"@ != "-show"@
        && "-hi"@ != "-sd"@) by {
        assert("-hi"@[1] != "-ad"@[1] && "-hi"@[1] != "-sd"@[1]);
    }
    assert("-sl"@ != "-r"@ && "-sl"@ != "-a"@ && "-sl"@ != "-ad"@ && "-sl"@ != "-show"@
        && "-sl"@ != "-sd"@ && "-sl"@ != "-hi"@) by {
        assert("-sl"@[2] != "-sd"@[2] && "-sl"@[1] != "-ad"@[1] && "-sl"@[1] != "-hi"@[1]);
    }
    lemma_switches_are_no_options("-show"@);
    lemma_switches_are_no_options("-sd"@);
    lemma_switches_are_no_options("-hi"@);
    lemma_switches_are_no_options("-sl"@);
    lemma_switches_are_no_options("-r"@);
    lemma_switches_are_no_options("-a"@);
    lemma_switches_are_no_options("-ad"@);
}

/// Each option that takes a value hands the next plain argument `v` to its
/// own setting, whatever the settings before it: `-o` makes it the output
/// folder, `-nt` the thread count (where it reads as an `i32`), `-l` the
/// loudness, `-st` and `-sa` the gain to set with bit 128 or 256 of the action
/// mask, `-i` an input (and further arguments stay inputs), and `-h` asks for
/// the help text; nothing else changes.
pub proof fn law_options_take_their_values(s: Settings, v: Seq<char>)
    requires
        pending_for_option(v) is None,
        bit_for_switch(v) is None,
    ensures
        next_settings(s, "-o"@) matches Some(s1) && next_settings(s1, v) == Some(
            Settings { dest: v, pending: Pending::Nothing, ..s },
        ) && request_for(s1, v) is None,
        next_settings(s, "-nt"@) matches Some(s1) && (spec_parse_i32(v) matches Some(n)
            ==> next_settings(s1, v) == Some(Settings { num_th: n, pending: Pending::Nothing, ..s }))
            && (spec_parse_i32(v) is None ==> next_settings(s1, v) is None),
        next_settings(s, "-l"@) matches Some(s1) && next_settings(s1, v) == Some(
            Settings { loudness: Some(v), pending: Pending::Nothing, ..s },
        ) && request_for(s1, v) == Some(Request::Loudness(v)),
        next_settings(s, "-st"@) matches Some(s1) && next_settings(s1, v) == Some(
            Settings { rg_set: Some(v), actions: s.actions | 128, pending: Pending::Nothing, ..s },
        ) && request_for(s1, v) == Some(Request::TrackGain(v)),
        next_settings(s, "-sa"@) matches Some(s1) && next_settings(s1, v) == Some(
            Settings { rg_set: Some(v), actions: s.actions | 256, pending: Pending::Nothing, ..s },
        ) && request_for(s1, v) == Some(Request::AlbumGain(v)),
        next_settings(s, "-i"@) matches Some(s1) && next_settings(s1, v) == Some(s1)
            && s1.dest == s.dest && s1.actions == s.actions && request_for(s1, v) == Some(
            Request::Inputs(v),
        ),
        next_settings(s, "-h"@) matches Some(s1) && next_settings(s1, v) == Some(
            Settings { pending: Pending::Nothing, ..s },
        ) && request_for(s1, v) == Some(Request::Help),
{
    reveal_strlit("-i");
    reveal_strlit("-o");
    reveal_strlit("-nt");
    reveal_strlit("-l");
    reveal_strlit("-st");
    reveal_strlit("-sa");
    reveal_strlit("-h");
    assert("-o"@ != "-i"@) by {
        assert("-o"@[1] != "-i"@[1]);
    }
    assert("-nt"@ != "-i"@ && "-nt"@ != "-o"@) by {
        assert("-nt"@.len() == 3);
    }
    assert("-l"@ != "-i"@ && "-l"@ != "-o"@ && "-l"@ != "-nt"@) by {
        assert("-l"@[1] != "-i"@[1] && "-l"@[1] != "-o"@[1]);
    }
    assert("-st"@ != "-i"@ && "-st"@ != "-o"@ && "-st"@ != "-nt"@ && "-st"@ != "-l"@) by {
        assert("-st"@[1] != "-nt"@[1]);
    }
    assert("-sa"@ != "-i"@ && "-sa"@ != "-o"@ && "-sa"@ != "-nt"@ && "-sa"@ != "-l"@
        && "-sa"@ != "-st"@) by {
        assert("-sa"@[1] != "-nt"@[1] && "-sa"@[2] != "-st"@[2]);
    }
    assert("-h"@ != "-i"@ && "-h"@ != "-o"@ && "-h"@ != "-nt"@ && "-h"@ != "-l"@
        && "-h"@ != "-st"@ && "-h"@ != "-sa"@) by {
        assert("-h"@[1] != "-i"@[1] && "-h"@[1] != "-o"@[1] && "-h"@[1] != "-l"@[1]);
    }
    assert(pending_for_option("-o"@) == Some(Pending::Output));
    assert(pending_for_option("-nt"@) == Some(Pending::Threads));
    assert(pending_for_option("-l"@) == Some(Pending::Loudness));
    assert(pending_for_option("-st"@) == Some(Pending::TrackGain));
    assert(pending_for_option("-sa"@) == Some(Pending::AlbumGain));
    assert(pending_for_option("-i"@) == Some(Pending::Inputs));
    assert(pending_for_option("-h"@) == Some(Pending::Help));
}

} // verus!
