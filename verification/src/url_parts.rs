use vstd::prelude::*;

verus! {

// Names for what the url crate computes from a URL string. Each is a pure
// function of the string alone: parsing is deterministic, and the accessors
// read the parsed value.

/// Whether `url::Url::parse` accepts the string as an absolute URL.
pub uninterp spec fn url_ok(s: Seq<char>) -> bool;

/// What `url::Url::domain` returns on the parsed URL: its host, when the
/// host is a domain name.
pub uninterp spec fn url_domain(s: Seq<char>) -> Option<Seq<char>>;

/// What `url::Url::path` returns on the parsed URL.
pub uninterp spec fn url_path(s: Seq<char>) -> Seq<char>;

/// What `url::Url::query_pairs` yields on the parsed URL: the decoded query
/// pairs, in order.
pub uninterp spec fn url_query(s: Seq<char>) -> Seq<(Seq<char>, Seq<char>)>;

/// The serialization of the parsed URL after its query is removed.
pub uninterp spec fn url_no_query(s: Seq<char>) -> Seq<char>;

/// The serialization of the parsed URL after one percent-encoded pair is
/// appended to its query.
pub uninterp spec fn url_append_pair(s: Seq<char>, key: Seq<char>, value: Seq<char>) -> Seq<char>;

/// The parts of a parsed URL that the sanitizer reads: the domain (when the
/// host is one), the path, and the decoded query pairs in order.
pub struct UrlParts {
    pub domain: Option<String>,
    pub path: String,
    pub pairs: Vec<(String, String)>,
}

/// Relies on `url::Url::parse` and the accessors `domain`, `path` and
/// `query_pairs` on the parsed value: parsing either fails, or yields the
/// URL's domain, path, and decoded query pairs.
#[verifier::external_body]
pub fn parse_components(url: &str) -> (r: Option<UrlParts>)
    ensures
        r is Some <==> url_ok(url@),
        r matches Some(p) ==> {
            &&& p.domain.deep_view() == url_domain(url@)
            &&& p.path@ == url_path(url@)
            &&& p.pairs.deep_view() == url_query(url@)
        },
{
    match url::Url::parse(url) {
        Ok(u) => {
            let domain = u.domain().map(|d| d.to_string());
            let path = u.path().to_string();
            let pairs = u.query_pairs().map(|(k, v)| (k.to_string(), v.to_string())).collect();
            Some(UrlParts { domain, path, pairs })
        },
        Err(_) => None,
    }
}

/// Relies on `url::Url::parse` and `Url::set_query(None)`: the serialization
/// with the query removed, which the url crate guarantees to reparse.
#[verifier::external_body]
pub fn strip_query(url: &str) -> (r: String)
    requires
        url_ok(url@),
    ensures
        r@ == url_no_query(url@),
        url_ok(r@),
{
    let mut u = url::Url::parse(url).unwrap();
    u.set_query(None);
    u.as_str().to_string()
}

/// Relies on `url::Url::query_pairs_mut` and the form-urlencoded serializer's
/// `append_pair`: the serialization with one more percent-encoded pair in the
/// query, which the url crate guarantees to reparse.
#[verifier::external_body]
pub fn append_pair_str(url: &str, key: &str, value: &str) -> (r: String)
    requires
        url_ok(url@),
    ensures
        r@ == url_append_pair(url@, key@, value@),
        url_ok(r@),
{
    let mut u = url::Url::parse(url).unwrap();
    u.query_pairs_mut().append_pair(key, value);
    u.as_str().to_string()
}

/// The serialization reached from `base` by appending each pair in order.
pub open spec fn append_pairs(base: Seq<char>, q: Seq<(Seq<char>, Seq<char>)>) -> Seq<char>
    decreases q.len(),
{
    if q.len() == 0 {
        base
    } else {
        append_pairs(url_append_pair(base, q[0].0, q[0].1), q.drop_first())
    }
}

/// The URL rebuilt with the given query pairs: the old query is dropped and
/// each new pair is appended, in order; with no pairs the query is omitted.
pub open spec fn rebuild_spec(s: Seq<char>, q: Seq<(Seq<char>, Seq<char>)>) -> Seq<char> {
    append_pairs(url_no_query(s), q)
}

/// Rebuilds a URL around a new list of query pairs.
pub fn rebuild_url(url: &str, pairs: &Vec<(String, String)>) -> (r: String)
    requires
        url_ok(url@),
    ensures
        r@ == rebuild_spec(url@, pairs.deep_view()),
{
    let ghost dv = pairs.deep_view();
    let mut res = strip_query(url);
    let mut i: usize = 0;
    proof {
        assert(dv.skip(0) =~= dv);
    }
    while i < pairs.len()
        invariant
            i <= pairs.len(),
            pairs.deep_view() == dv,
            url_ok(res@),
            rebuild_spec(url@, dv) == append_pairs(res@, dv.skip(i as int)),
        decreases pairs.len() - i,
    {
        let ghost res0 = res@;
        res = append_pair_str(res.as_str(), pairs[i].0.as_str(), pairs[i].1.as_str());
        proof {
            assert(dv[i as int] == (pairs@[i as int].0@, pairs@[i as int].1@));
            assert(dv.skip(i as int)[0] == dv[i as int]);
            assert(dv.skip(i as int).drop_first() =~= dv.skip(i + 1 as int));
            assert(res@ == url_append_pair(res0, dv[i as int].0, dv[i as int].1));
            assert(append_pairs(res0, dv.skip(i as int)) == append_pairs(
                res@,
                dv.skip(i + 1 as int),
            ));
        }
        i += 1;
    }
    proof {
        assert(dv.skip(dv.len() as int) =~= Seq::<(Seq<char>, Seq<char>)>::empty());
    }
    res
}

} // verus!
