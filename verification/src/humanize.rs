//! Rendering a saved time as a rough age: "just now", then minutes,
//! hours, days, weeks, months and years, by the usual rounding.

use vstd::prelude::*;

use crate::strutil::{dec_digits, u64_to_string};

verus! {

/// The age bucket a time difference falls in, as text: under a minute
/// reads "just now", a day old reads "yesterday", and beyond that the
/// count of the largest whole unit, weeks as seven days, months as
/// thirty, years as three hundred and sixty-five.
pub open spec fn age_text(now: i64, then: i64) -> Seq<char> {
    let diff = now - then;
    if diff < 60 {
        "just now"@
    } else if diff < 3600 {
        dec_digits((diff / 60) as nat).add("m ago"@)
    } else if diff < 86400 {
        dec_digits((diff / 3600) as nat).add("h ago"@)
    } else if diff / 86400 == 1 {
        "yesterday"@
    } else if diff / 86400 < 7 {
        dec_digits((diff / 86400) as nat).add("d ago"@)
    } else if diff / 86400 < 30 {
        dec_digits((diff / 86400 / 7) as nat).add("w ago"@)
    } else if diff / 86400 < 365 {
        dec_digits((diff / 86400 / 30) as nat).add("mo ago"@)
    } else {
        dec_digits((diff / 86400 / 365) as nat).add("y ago"@)
    }
}

fn push_str_all(s: &mut String, t: &str)
    ensures
        final(s)@ == old(s)@.add(t@),
{
    s.append(t);
}

/// Renders the age of a moment `then` as seen from `now`. The two
/// moments must be close enough that their difference is a time again.
pub fn humanize_age(now: i64, then: i64) -> (r: String)
    requires
        i64::MIN <= now - then <= i64::MAX,
    ensures
        r@ == age_text(now, then),
{
    let diff: i64 = now - then;
    if diff < 60 {
        return String::from_str("just now");
    }
    if diff < 3600 {
        let mut s = u64_to_string((diff / 60) as u64);
        push_str_all(&mut s, "m ago");
        return s;
    }
    if diff < 86400 {
        let mut s = u64_to_string((diff / 3600) as u64);
        push_str_all(&mut s, "h ago");
        return s;
    }
    let days = diff / 86400;
    if days == 1 {
        return String::from_str("yesterday");
    }
    if days < 7 {
        let mut s = u64_to_string(days as u64);
        push_str_all(&mut s, "d ago");
        return s;
    }
    if days < 30 {
        let mut s = u64_to_string((days / 7) as u64);
        push_str_all(&mut s, "w ago");
        return s;
    }
    if days < 365 {
        let mut s = u64_to_string((days / 30) as u64);
        push_str_all(&mut s, "mo ago");
        return s;
    }
    let mut s = u64_to_string((days / 365) as u64);
    push_str_all(&mut s, "y ago");
    s
}

/// Renders how long ago a stored moment was, as of now. A moment so
/// remote that the difference overflows is shown from the nearest
/// moment whose difference does not.
pub fn datetime_humanize(saved_at: i64) -> (r: String)
    ensures
        exists|now: i64| r@ == age_text(now, saved_at),
{
    let now = crate::store::now_ts();
    if (now as i128) - (saved_at as i128) < 60 {
        // also covers a saved moment in the future
        let r = humanize_age(saved_at, saved_at);
        proof {
            assert(r@ == age_text(saved_at, saved_at));
        }
        return r;
    }
    if (now as i128) - (saved_at as i128) > (i64::MAX as i128) {
        let capped = saved_at + i64::MAX;
        let r = humanize_age(capped, saved_at);
        proof {
            assert(r@ == age_text(capped, saved_at));
        }
        return r;
    }
    let r = humanize_age(now, saved_at);
    proof {
        assert(r@ == age_text(now, saved_at));
    }
    r
}

} // verus!
