//! The options that the program is started with.

use crate::text::{self, listed, same_text};
use vstd::prelude::*;
use vstd::string::*;

verus! {

/// What a screenshot is taken of, and where it goes.
#[derive(Debug)]
pub struct ShotOptions {
    pub path: String,
    /// The wait before it is taken, in seconds, as it was written.
    pub warmup: Option<String>,
    pub tab: Option<String>,
    pub select: Option<String>,
}

#[derive(Debug)]
pub struct Options {
    pub shot: Option<ShotOptions>,
    /// Whether the name of the account's holder is hidden.
    pub redact: bool,
}

/// The place of an argument, or the number of arguments where it is not given.
pub open spec fn place_of(args: Seq<Seq<char>>, arg: Seq<char>) -> int
    decreases args.len(),
{
    if args.len() == 0 || args[0] == arg {
        0
    } else {
        1 + place_of(args.drop_first(), arg)
    }
}

/// The argument at a place, where there is one.
pub open spec fn arg_at(args: Seq<Seq<char>>, i: int) -> Option<Seq<char>> {
    if 0 <= i < args.len() {
        Some(args[i])
    } else {
        None
    }
}

/// The argument behind another, where both are given.
pub open spec fn arg_behind(args: Seq<Seq<char>>, arg: Seq<char>) -> Option<Seq<char>> {
    arg_at(args, place_of(args, arg) + 1)
}

/// Whether options are those that arguments give.
pub open spec fn are_options(o: Options, args: Seq<Seq<char>>) -> bool {
    let i = place_of(args, "--screenshot"@);
    &&& o.redact == args.contains("--redact"@)
    &&& o.shot is Some == (i < args.len())
    &&& o.shot is Some ==> {
        &&& o.shot->0.path@ == match arg_at(args, i + 1) {
            Some(p) => p,
            None => "shot.png"@,
        }
        &&& text::seen_text(o.shot->0.warmup) == arg_at(args, i + 2)
        &&& text::seen_text(o.shot->0.tab) == arg_behind(args, "--tab"@)
        &&& text::seen_text(o.shot->0.select) == arg_behind(args, "--select"@)
    }
}

fn place(args: &Vec<String>, arg: &str) -> (r: usize)
    ensures
        r == place_of(text::texts(args@), arg@),
        r <= args@.len(),
{
    let ghost all = text::texts(args@);
    let n: usize = args.len();
    let mut i: usize = 0;
    assert(all.skip(0) =~= all);
    while i < n && !same_text(args[i].as_str(), arg)
        invariant
            i <= n,
            n == args@.len(),
            all == text::texts(args@),
            place_of(all, arg@) == i + place_of(all.skip(i as int), arg@),
        decreases n - i,
    {
        assert(all.skip(i as int)[0] == args@[i as int]@);
        assert(all.skip(i as int).drop_first() =~= all.skip(i + 1));
        i = i + 1;
    }
    if i < n {
        assert(all.skip(i as int)[0] == args@[i as int]@);
    } else {
        assert(all.skip(n as int).len() == 0);
    }
    i
}

fn get(args: &Vec<String>, i: usize) -> (r: Option<String>)
    ensures
        text::seen_text(r) == arg_at(text::texts(args@), i as int),
{
    if i < args.len() {
        Some(args[i].clone())
    } else {
        None
    }
}

fn behind(args: &Vec<String>, arg: &str) -> (r: Option<String>)
    ensures
        text::seen_text(r) == arg_behind(text::texts(args@), arg@),
{
    let i: usize = place(args, arg);
    if i < args.len() {
        get(args, i + 1)
    } else {
        None
    }
}

/// Reads the options from the arguments that the program was started with.
pub fn read_options(args: &Vec<String>) -> (r: Options)
    ensures
        are_options(r, text::texts(args@)),
{
    let i: usize = place(args, "--screenshot");
    let n: usize = args.len();
    let shot = if i < n {
        let path = if i + 1 < n {
            args[i + 1].clone()
        } else {
            "shot.png".to_owned()
        };
        let warmup = if n - i > 2 {
            get(args, i + 2)
        } else {
            None
        };
        Some(
            ShotOptions {
                path,
                warmup,
                tab: behind(args, "--tab"),
                select: behind(args, "--select"),
            },
        )
    } else {
        None
    };
    Options { shot, redact: listed(args, "--redact") }
}

} // verus!
