//! The editor's launch switches.

use vstd::prelude::*;
use crate::text::{equals, parse_u16, parse_unsigned, parse_usize};

verus! {

/// The port a share serves on when `--share` names none.
pub const DEFAULT_SHARE_PORT: u16 = 5877;

/// What the editor was launched with.
pub struct LaunchArgs {
    /// A bench page of this many blocks (`--blocks N`).
    pub blocks: usize,
    /// Quit after this many seconds (`--auto-exit S`), as written; the
    /// number is read by whoever keeps the clock.
    pub auto_exit: Option<String>,
    /// Extra flat pages to switch between (`--page-switch N`).
    pub bench_pages: usize,
    /// Programmatic continuous scroll (`--scroll`).
    pub scroll: bool,
    /// Headless state setup for screenshots (`--scene <name>`).
    pub scene: Option<String>,
    /// Database file (`--db <path>`).
    pub db: Option<String>,
    /// Markdown file to import and open at startup (`--open <path>`, or the
    /// bare positional, which is what the file association passes).
    pub open: Option<String>,
    /// Serve the workspace read-only on the LAN (`--share [port]`, the
    /// default port when none follows, or `--share-port P`).
    pub share: Option<u16>,
    /// Pull a workspace from another instance (`--pull URL`).
    pub pull: Option<String>,
    /// Print loaded page and block counts (`--dump-state`).
    pub dump_state: bool,
}

/// [`LaunchArgs`] as values.
pub struct LaunchModel {
    pub blocks: nat,
    pub auto_exit: Option<Seq<char>>,
    pub bench_pages: nat,
    pub scroll: bool,
    pub scene: Option<Seq<char>>,
    pub db: Option<Seq<char>>,
    pub open: Option<Seq<char>>,
    pub share: Option<nat>,
    pub pull: Option<Seq<char>>,
    pub dump_state: bool,
}

pub open spec fn opt_view(o: Option<String>) -> Option<Seq<char>> {
    match o {
        Some(s) => Some(s@),
        None => None,
    }
}

impl View for LaunchArgs {
    type V = LaunchModel;

    open spec fn view(&self) -> LaunchModel {
        LaunchModel {
            blocks: self.blocks as nat,
            auto_exit: opt_view(self.auto_exit),
            bench_pages: self.bench_pages as nat,
            scroll: self.scroll,
            scene: opt_view(self.scene),
            db: opt_view(self.db),
            open: opt_view(self.open),
            share: match self.share {
                Some(p) => Some(p as nat),
                None => None,
            },
            pull: opt_view(self.pull),
            dump_state: self.dump_state,
        }
    }
}

/// A count as the launch switches read one: the number, or 0 when the
/// value is not a `usize`.
pub open spec fn count_or_zero(v: Seq<char>) -> nat {
    match parse_unsigned(v, usize::MAX as int) {
        Some(n) => n,
        None => 0,
    }
}

/// One switch at position `i`: the arguments after it, and the position of
/// the last argument it used (its value's, when it takes one).
pub open spec fn launch_step(args: Seq<Seq<char>>, i: int, a: LaunchModel) -> (LaunchModel, int) {
    let arg = args[i];
    let has_value = i + 1 < args.len();
    let v = args[i + 1];
    if arg == "--blocks"@ && has_value {
        (LaunchModel { blocks: count_or_zero(v), ..a }, i + 1)
    } else if arg == "--auto-exit"@ && has_value {
        (LaunchModel { auto_exit: Some(v), ..a }, i + 1)
    } else if arg == "--page-switch"@ && has_value {
        (LaunchModel { bench_pages: count_or_zero(v), ..a }, i + 1)
    } else if arg == "--scroll"@ {
        (LaunchModel { scroll: true, ..a }, i)
    } else if arg == "--scene"@ && has_value {
        (LaunchModel { scene: Some(v), ..a }, i + 1)
    } else if arg == "--db"@ && has_value {
        (LaunchModel { db: Some(v), ..a }, i + 1)
    } else if arg == "--dump-state"@ {
        (LaunchModel { dump_state: true, ..a }, i)
    } else if arg == "--open"@ && has_value {
        (LaunchModel { open: Some(v), ..a }, i + 1)
    } else if arg == "--share"@ {
        // the port is optional: the next argument is taken only when it
        // reads as one
        if has_value && parse_unsigned(v, u16::MAX as int) is Some {
            (LaunchModel { share: parse_unsigned(v, u16::MAX as int), ..a }, i + 1)
        } else {
            (LaunchModel { share: Some(DEFAULT_SHARE_PORT as nat), ..a }, i)
        }
    } else if arg == "--share-port"@ && has_value {
        (
            match parse_unsigned(v, u16::MAX as int) {
                Some(p) => LaunchModel { share: Some(p), ..a },
                None => a,
            },
            i + 1,
        )
    } else if arg == "--pull"@ && has_value {
        (LaunchModel { pull: Some(v), ..a }, i + 1)
    } else if !(arg.len() > 0 && arg[0] == '-') {
        // a bare positional is the file to open, the first one only
        (if a.open is None { LaunchModel { open: Some(arg), ..a } } else { a }, i)
    } else {
        (a, i)
    }
}

/// The switches from position `i` on, applied to `a` in order.
pub open spec fn launch_from(args: Seq<Seq<char>>, i: int, a: LaunchModel) -> LaunchModel
    decreases args.len() - i,
{
    if i < 0 || i >= args.len() {
        a
    } else {
        let (b, last) = launch_step(args, i, a);
        if last < i {
            b
        } else {
            launch_from(args, last + 1, b)
        }
    }
}

/// Nothing given: no bench, no scene, no file, no share.
pub open spec fn launch_defaults() -> LaunchModel {
    LaunchModel {
        blocks: 0,
        auto_exit: None,
        bench_pages: 0,
        scroll: false,
        scene: None,
        db: None,
        open: None,
        share: None,
        pull: None,
        dump_state: false,
    }
}

/// The arguments' texts.
pub open spec fn arg_texts(argv: Seq<String>) -> Seq<Seq<char>> {
    argv.map_values(|s: String| s@)
}

pub(crate) fn clone_str(s: &String) -> (r: String)
    ensures
        r@ == s@,
{
    s.clone()
}

/// The launch switches in `argv` (the program's name first, then its
/// arguments). A switch missing its value, an unknown switch, and every
/// bare argument after the first are ignored; a count that does not read
/// as a number is 0, and a port that does not is no port. `--share` takes
/// the argument after it as its port when that reads as one.
pub fn parse_launch_args(argv: &[String]) -> (a: LaunchArgs)
    ensures
        a@ == launch_from(arg_texts(argv@), 1, launch_defaults()),
{
    let ghost args = arg_texts(argv@);
    let mut a = LaunchArgs {
        blocks: 0,
        auto_exit: None,
        bench_pages: 0,
        scroll: false,
        scene: None,
        db: None,
        open: None,
        share: None,
        pull: None,
        dump_state: false,
    };
    let mut i: usize = 1;
    while i < argv.len()
        invariant
            args == arg_texts(argv@),
            1 <= i,
            launch_from(args, 1, launch_defaults()) == launch_from(args, i as int, a@),
        decreases argv@.len() - i,
    {
        let arg = argv[i].as_str();
        let has_value = i + 1 < argv.len();
        let ghost before = a@;
        proof {
            assert(args[i as int] == arg@);
            if has_value {
                assert(args[i + 1] == argv@[i + 1]@);
            }
        }
        if equals(arg, "--blocks") && has_value {
            a.blocks = match parse_usize(argv[i + 1].as_str()) {
                Some(n) => n,
                None => 0,
            };
            i = i + 1;
        } else if equals(arg, "--auto-exit") && has_value {
            a.auto_exit = Some(clone_str(&argv[i + 1]));
            i = i + 1;
        } else if equals(arg, "--page-switch") && has_value {
            a.bench_pages = match parse_usize(argv[i + 1].as_str()) {
                Some(n) => n,
                None => 0,
            };
            i = i + 1;
        } else if equals(arg, "--scroll") {
            a.scroll = true;
        } else if equals(arg, "--scene") && has_value {
            a.scene = Some(clone_str(&argv[i + 1]));
            i = i + 1;
        } else if equals(arg, "--db") && has_value {
            a.db = Some(clone_str(&argv[i + 1]));
            i = i + 1;
        } else if equals(arg, "--dump-state") {
            a.dump_state = true;
        } else if equals(arg, "--open") && has_value {
            a.open = Some(clone_str(&argv[i + 1]));
            i = i + 1;
        } else if equals(arg, "--share") {
            let port = if has_value {
                parse_u16(argv[i + 1].as_str())
            } else {
                None
            };
            match port {
                Some(p) => {
                    a.share = Some(p);
                    i = i + 1;
                },
                None => a.share = Some(DEFAULT_SHARE_PORT),
            }
        } else if equals(arg, "--share-port") && has_value {
            match parse_u16(argv[i + 1].as_str()) {
                Some(p) => a.share = Some(p),
                None => {},
            }
            i = i + 1;
        } else if equals(arg, "--pull") && has_value {
            a.pull = Some(clone_str(&argv[i + 1]));
            i = i + 1;
        } else if !(arg.unicode_len() > 0 && arg.get_char(0) == '-') {
            if a.open.is_none() {
                a.open = Some(clone_str(&argv[i]));
            }
        }
        proof {
            reveal_strlit("--blocks");
            reveal_strlit("--auto-exit");
            reveal_strlit("--page-switch");
            reveal_strlit("--scroll");
            reveal_strlit("--scene");
            reveal_strlit("--db");
            reveal_strlit("--dump-state");
            reveal_strlit("--open");
            reveal_strlit("--share");
            reveal_strlit("--share-port");
            reveal_strlit("--pull");
        }
        i = i + 1;
    }
    a
}

} // verus!
