use vstd::prelude::*;
use vstd::string::StrSliceExecFns;

verus! {

/// Relies on String::push: appends the given character to the end of the
/// string, leaving the earlier characters in place.
pub assume_specification[ String::push ](s: &mut String, c: char)
    ensures
        final(s)@ == old(s)@.push(c),
;

/// The characters of a string slice, collected in order.
pub fn chars_of(s: &str) -> (r: Vec<char>)
    ensures
        r@ == s@,
{
    let n = s.unicode_len();
    let mut r: Vec<char> = Vec::new();
    let mut i: usize = 0;
    while i < n
        invariant
            n == s@.len(),
            i <= n,
            r@ == s@.take(i as int),
        decreases n - i,
    {
        let c = s.get_char(i);
        r.push(c);
        proof {
            assert(s@.take(i as int).push(c) =~= s@.take(i + 1 as int));
        }
        i += 1;
    }
    proof {
        assert(s@.take(n as int) =~= s@);
    }
    r
}

/// A string holding exactly the given characters, in order.
pub fn string_of(v: &Vec<char>) -> (r: String)
    ensures
        r@ == v@,
{
    let mut r = String::new();
    let mut i: usize = 0;
    while i < v.len()
        invariant
            i <= v.len(),
            r@ == v@.take(i as int),
        decreases v.len() - i,
    {
        let c = v[i];
        r.push(c);
        proof {
            assert(v@.take(i as int).push(c) =~= v@.take(i + 1 as int));
        }
        i += 1;
    }
    proof {
        assert(v@.take(v@.len() as int) =~= v@);
    }
    r
}

/// Whether two string slices hold the same characters.
pub fn str_eq(a: &str, b: &str) -> (r: bool)
    ensures
        r == (a@ == b@),
{
    let sa = a.to_owned();
    let sb = b.to_owned();
    sa == sb
}

/// A domain with a leading `www.` stripped, if one is present.
pub open spec fn strip_www_spec(d: Seq<char>) -> Seq<char> {
    if d.len() >= 4 && d[0] == 'w' && d[1] == 'w' && d[2] == 'w' && d[3] == '.' {
        d.skip(4)
    } else {
        d
    }
}

/// Strips a leading `www.` from a domain name.
pub fn strip_www(d: &str) -> (r: String)
    ensures
        r@ == strip_www_spec(d@),
{
    let n = d.unicode_len();
    if n >= 4 && d.get_char(0) == 'w' && d.get_char(1) == 'w' && d.get_char(2) == 'w' && d.get_char(
        3,
    ) == '.' {
        let tail = d.substring_char(4, n);
        proof {
            assert(d@.subrange(4, n as int) =~= d@.skip(4));
        }
        tail.to_owned()
    } else {
        d.to_owned()
    }
}

} // verus!
