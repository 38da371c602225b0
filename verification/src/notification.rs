//! Desktop notifications requested by the terminal (OSC 9 / 777): the text
//! the notification shows. Delivering it is the platform layer's job.

use vstd::prelude::*;
use crate::text::{chars_of, string_from_chars};

verus! {

/// The application prefix of every notification summary.
pub open spec fn summary_prefix() -> Seq<char> {
    seq!['N', 'e', 'x', 't', 'e', 'r', 'm', ':', ' ']
}

/// The summary line of a notification titled `title`: `"Nexterm: "`
/// followed by the title.
pub fn notification_summary(title: &str) -> (s: String)
    ensures
        s@ == summary_prefix() + title@,
{
    let mut v: Vec<char> = vec!['N', 'e', 'x', 't', 'e', 'r', 'm', ':', ' '];
    let t = chars_of(title);
    let mut i: usize = 0;
    while i < t.len()
        invariant
            i <= t@.len(),
            t@ == title@,
            v@ == summary_prefix() + t@.take(i as int),
        decreases t@.len() - i,
    {
        v.push(t[i]);
        proof {
            assert(t@.take(i + 1) =~= t@.take(i as int).push(t@[i as int]));
        }
        i = i + 1;
    }
    proof {
        assert(t@.take(t@.len() as int) =~= t@);
    }
    string_from_chars(&v)
}

} // verus!
