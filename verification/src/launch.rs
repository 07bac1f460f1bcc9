//! Resolution of the URL this program was launched to open: the first
//! process argument after the program name that carries a web-link scheme.

use vstd::prelude::*;
use vstd::string::StringExecFns;
use crate::text::{chars_of, chars_start_with, starts_with};

verus! {

/// Whether an argument is a web link: it begins with `http://` or
/// `https://`, and nothing else counts.
pub open spec fn is_launch_url(s: Seq<char>) -> bool {
    starts_with(s, "http://"@) || starts_with(s, "https://"@)
}

/// The first web link in the list, or the empty string.
pub open spec fn first_url(args: Seq<Seq<char>>) -> Seq<char>
    decreases args.len(),
{
    if args.len() == 0 {
        Seq::empty()
    } else if is_launch_url(args[0]) {
        args[0]
    } else {
        first_url(args.drop_first())
    }
}

/// The views of a list of strings, element by element.
pub open spec fn strs_view(s: Seq<String>) -> Seq<Seq<char>> {
    Seq::new(s.len(), |i: int| s[i]@)
}

/// Scans the process invocation arguments, the program name excluded, and
/// returns the first that begins with `http://` or `https://`; the empty
/// string when none does. Pure and deterministic.
pub fn resolve_launch_url(args: &Vec<String>) -> (r: String)
    ensures
        r@ == if args@.len() == 0 {
            Seq::<char>::empty()
        } else {
            first_url(strs_view(args@).drop_first())
        },
{
    if args.len() == 0 {
        let r = String::new();
        return r;
    }
    let p1 = chars_of("http://");
    let p2 = chars_of("https://");
    let ghost dv = strs_view(args@);
    proof {
        assert(dv.drop_first() =~= dv.skip(1));
    }
    let mut i: usize = 1;
    while i < args.len()
        invariant
            1 <= i <= args.len(),
            dv == strs_view(args@),
            dv.len() == args@.len(),
            p1@ == "http://"@,
            p2@ == "https://"@,
            first_url(dv.skip(1)) == first_url(dv.skip(i as int)),
        decreases args.len() - i,
    {
        let c = chars_of(args[i].as_str());
        proof {
            assert(dv.skip(i as int)[0] == dv[i as int]);
            assert(dv.skip(i as int).drop_first() =~= dv.skip(i + 1 as int));
        }
        if chars_start_with(&c, &p1) || chars_start_with(&c, &p2) {
            assert(first_url(dv.skip(i as int)) == dv[i as int]);
            return args[i].clone();
        }
        i = i + 1;
    }
    proof {
        assert(dv.skip(args@.len() as int).len() == 0);
    }
    String::new()
}

} // verus!
