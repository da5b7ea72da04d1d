//! The model package manager: where models come from and where they are kept.
use vstd::prelude::*;
use crate::lexer::{str_chars, string_from_chars, chars_between};
use crate::evaluator::builtins::starts_with;

verus! {

/// The home directory from the `USERPROFILE` and `HOME` settings: the first
/// one that is set, else the current directory.
pub fn home_dir(userprofile: Option<&str>, home: Option<&str>) -> (r: String)
    ensures
        r@ == match userprofile {
            Some(u) => u@,
            None => match home {
                Some(h) => h@,
                None => "."@,
            },
        },
{
    match userprofile {
        Some(u) => String::from_str(u),
        None => match home {
            Some(h) => String::from_str(h),
            None => String::from_str("."),
        },
    }
}

/// Whether a model reference is a direct download address (starts with `http`).
pub fn is_direct_url(model_url: &str) -> (b: bool)
    ensures
        b == starts_with(model_url@, "http"@),
{
    let s = str_chars(model_url);
    let p = str_chars("http");
    proof {
        reveal_strlit("http");
    }
    if s.len() < 4 {
        return false;
    }
    let head = chars_between(&s, 0, 4);
    let b = string_from_chars(&head) == string_from_chars(&p);
    assert(head@ == s@.subrange(0, 4));
    b
}

/// The text after the last `c` of `s` (all of `s` if `c` does not occur).
pub open spec fn after_last(s: Seq<char>, c: char) -> Seq<char>
    decreases s.len(),
{
    if s.len() == 0 {
        s
    } else if s.last() == c {
        Seq::empty()
    } else {
        after_last(s.drop_last(), c).push(s.last())
    }
}

/// The file name of a model address: the text after its last `/`.
pub fn model_file_name(model_url: &str) -> (r: String)
    ensures
        r@ == after_last(model_url@, '/'),
{
    let s = str_chars(model_url);
    let mut i = s.len();
    assert(s@.subrange(0, i as int) =~= s@);
    assert(s@.subrange(i as int, s@.len() as int) =~= Seq::<char>::empty());
    assert(after_last(s@, '/') =~= after_last(s@, '/') + Seq::<char>::empty());
    while i > 0 && s[i - 1] != '/'
        invariant
            i <= s.len(),
            after_last(s@, '/') == after_last(s@.subrange(0, i as int), '/') + s@.subrange(
                i as int,
                s@.len() as int,
            ),
        decreases i,
    {
        let ghost t = s@.subrange(0, i as int);
        assert(t.drop_last() =~= s@.subrange(0, i - 1));
        assert(s@.subrange(i - 1, s@.len() as int) =~= seq![t.last()] + s@.subrange(
            i as int,
            s@.len() as int,
        ));
        assert(after_last(t, '/') == after_last(t.drop_last(), '/').push(t.last()));
        assert(after_last(t.drop_last(), '/').push(t.last()) + s@.subrange(i as int, s@.len() as int)
            =~= after_last(t.drop_last(), '/') + s@.subrange(i - 1, s@.len() as int));
        i = i - 1;
    }
    proof {
        let t = s@.subrange(0, i as int);
        if i == 0 {
            assert(t =~= Seq::<char>::empty());
        }
        assert(after_last(t, '/') =~= Seq::<char>::empty());
        assert(s@.subrange(0, s@.len() as int) =~= s@);
    }
    string_from_chars(&chars_between(&s, i, s.len()))
}

/// Where the runtime loads a model from: the path itself when that file
/// exists, else its place in the global cache when that exists, else nowhere.
pub open spec fn resolve_model_path_spec(
    file_path: Seq<char>,
    local_exists: bool,
    cache_path: Seq<char>,
    cache_exists: bool,
) -> Option<Seq<char>> {
    if local_exists {
        Some(file_path)
    } else if cache_exists {
        Some(cache_path)
    } else {
        None
    }
}

/// Resolves a model reference, given whether the local file and the cached
/// file exist; `None` means the model is not available.
pub fn resolve_model_path(file_path: &str, local_exists: bool, cache_path: &str, cache_exists: bool) -> (r:
    Option<String>)
    ensures
        match r {
            Some(p) => resolve_model_path_spec(file_path@, local_exists, cache_path@, cache_exists)
                == Some(p@),
            None => resolve_model_path_spec(file_path@, local_exists, cache_path@, cache_exists)
                is None,
        },
{
    if local_exists {
        Some(String::from_str(file_path))
    } else if cache_exists {
        Some(String::from_str(cache_path))
    } else {
        None
    }
}

/// The file name of a model address is its last part: it holds no `/`, the
/// address ends with it, and just before it comes a `/` or the start.
pub proof fn law_model_file_name(url: Seq<char>)
    ensures
        !after_last(url, '/').contains('/'),
        after_last(url, '/').len() <= url.len(),
        url.subrange(url.len() - after_last(url, '/').len(), url.len() as int) == after_last(url, '/'),
        after_last(url, '/').len() == url.len() || url[url.len() - after_last(url, '/').len() - 1]
            == '/',
    decreases url.len(),
{
    let r = after_last(url, '/');
    if url.len() > 0 {
        let d = url.drop_last();
        law_model_file_name(d);
        if url.last() == '/' {
            assert(r =~= Seq::<char>::empty());
            assert(url.subrange(url.len() as int, url.len() as int) =~= r);
        } else {
            let rd = after_last(d, '/');
            assert(r == rd.push(url.last()));
            assert(!r.contains('/')) by {
                if r.contains('/') {
                    let k = choose|k: int| 0 <= k < r.len() && r[k] == '/';
                    if k < rd.len() {
                        assert(rd[k] == '/');
                    }
                }
            }
            assert(url.subrange(url.len() - r.len(), url.len() as int) =~= d.subrange(
                d.len() - rd.len(),
                d.len() as int,
            ).push(url.last()));
            if rd.len() < d.len() {
                assert(url[url.len() - r.len() - 1] == d[d.len() - rd.len() - 1]);
            }
        }
    } else {
        assert(url.subrange(0, 0) =~= r);
    }
}

} // verus!
