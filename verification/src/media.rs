//! Media types: the static extension-to-MIME table, media-type validation,
//! and extension handling for file names and Content-Type values.

use vstd::prelude::*;
use crate::errors::ServerErr;
use crate::text::{str_eq, str_is_prefix};

verus! {

/// The static extension-to-MIME table; unknown extensions have no entry.
pub open spec fn mime_of(ext: Seq<char>) -> Option<Seq<char>> {
    if ext == "png"@ {
        Some("image/png"@)
    } else if ext == "jpg"@ || ext == "jpeg"@ {
        Some("image/jpeg"@)
    } else if ext == "mp4"@ {
        Some("video/mp4"@)
    } else if ext == "mpeg"@ {
        Some("video/mpeg"@)
    } else {
        None
    }
}

/// Look an extension up in the MIME table; unknown extensions are rejected
/// before any read or write.
pub fn mime_for_ext(ext: &str) -> (r: Result<String, ServerErr>)
    ensures
        match r {
            Ok(m) => mime_of(ext@) == Some(m@),
            Err(e) => mime_of(ext@) is None && e == ServerErr::InvalidMediaType,
        },
{
    if str_eq(ext, "png") {
        Ok(String::from_str("image/png"))
    } else if str_eq(ext, "jpg") || str_eq(ext, "jpeg") {
        Ok(String::from_str("image/jpeg"))
    } else if str_eq(ext, "mp4") {
        Ok(String::from_str("video/mp4"))
    } else if str_eq(ext, "mpeg") {
        Ok(String::from_str("video/mpeg"))
    } else {
        Err(ServerErr::InvalidMediaType)
    }
}

/// A declared media type is acceptable when its top-level type is image or
/// video.
pub open spec fn is_media_type(m: Seq<char>) -> bool {
    ||| (m.len() >= 6 && m.take(6) == "image/"@)
    ||| (m.len() >= 6 && m.take(6) == "video/"@)
}

/// Reject a declared media type that is neither image nor video, before any
/// write happens.
pub fn is_valid_media(mime: &str) -> (r: Result<(), ServerErr>)
    ensures
        r is Ok <==> is_media_type(mime@),
        r is Err ==> r->Err_0 == ServerErr::InvalidMediaType,
{
    proof {
        reveal_strlit("image/");
        reveal_strlit("video/");
    }
    if str_is_prefix("image/", mime) || str_is_prefix("video/", mime) {
        Ok(())
    } else {
        Err(ServerErr::InvalidMediaType)
    }
}

/// The subtype of a media type: the characters after the first `/`, up to a
/// `;` parameter separator; `None` when there is no `/`.
pub open spec fn subtype_of(m: Seq<char>) -> Option<Seq<char>>
    decreases m.len(),
{
    if m.len() == 0 {
        None
    } else if m[0] == '/' {
        Some(until_semi(m.drop_first()))
    } else {
        subtype_of(m.drop_first())
    }
}

/// The prefix up to (excluding) the first `;`.
pub open spec fn until_semi(m: Seq<char>) -> Seq<char>
    decreases m.len(),
{
    if m.len() == 0 {
        Seq::empty()
    } else if m[0] == ';' {
        Seq::empty()
    } else {
        seq![m[0]] + until_semi(m.drop_first())
    }
}

/// The extension a declared media type maps a blob to: its subtype, e.g.
/// `jpeg` for `image/jpeg`. A value with no subtype is rejected.
pub fn ext_from_mime(mime: &str) -> (r: Result<String, ServerErr>)
    ensures
        match r {
            Ok(e) => subtype_of(mime@) == Some(e@),
            Err(err) => subtype_of(mime@) is None && err == ServerErr::InvalidMediaType,
        },
{
    let n = mime.unicode_len();
    proof {
        assert(mime@.skip(0) =~= mime@);
    }
    let mut i: usize = 0;
    while i < n
        invariant
            i <= n,
            n == mime@.len(),
            subtype_of(mime@) == subtype_of(mime@.skip(i as int)),
            forall|k: int| 0 <= k < i ==> mime@[k] != '/',
        decreases n - i,
    {
        let ghost rest = mime@.skip(i as int);
        if mime.get_char(i) == '/' {
            proof {
                assert(rest[0] == mime@[i as int]);
                assert(rest.drop_first() =~= mime@.skip(i + 1));
            }
            let ghost tail = mime@.skip(i + 1);
            // find the parameter separator, if any
            let mut j: usize = i + 1;
            while j < n && mime.get_char(j) != ';'
                invariant
                    i + 1 <= j <= n,
                    n == mime@.len(),
                    forall|k: int| i + 1 <= k < j ==> mime@[k] != ';',
                decreases n - j,
            {
                j += 1;
            }
            proof {
                assert(forall|k: int| 0 <= k < j - i - 1 ==> #[trigger] tail[k] != ';');
                if j < n {
                    assert(tail[j - i - 1] == ';');
                }
                lemma_until_semi(tail, j - i - 1);
            }
            // collect the subtype characters
            let mut out: Vec<char> = Vec::new();
            let mut p: usize = i + 1;
            while p < j
                invariant
                    i + 1 <= p <= j <= n,
                    n == mime@.len(),
                    tail == mime@.skip(i + 1),
                    out@ == tail.take(p - i - 1),
                decreases j - p,
            {
                let c = mime.get_char(p);
                proof {
                    assert(tail.take(p - i) =~= tail.take(p - i - 1).push(mime@[p as int]));
                }
                out.push(c);
                p += 1;
            }
            return Ok(crate::text::chars_to_string(&out));
        }
        proof {
            assert(rest[0] == mime@[i as int]);
            assert(rest.drop_first() =~= mime@.skip(i + 1));
        }
        i += 1;
    }
    proof {
        assert(mime@.skip(n as int) =~= Seq::<char>::empty());
    }
    Err(ServerErr::InvalidMediaType)
}

/// With no separator among the first `k` characters and a separator (or the
/// end) at `k`, the prefix kept is exactly the first `k` characters.
proof fn lemma_until_semi(s: Seq<char>, k: int)
    requires
        0 <= k <= s.len(),
        forall|i: int| 0 <= i < k ==> s[i] != ';',
        k == s.len() || s[k] == ';',
    ensures
        until_semi(s) == s.take(k),
    decreases k,
{
    if k == 0 {
        assert(s.take(0) =~= Seq::<char>::empty());
    } else {
        assert(s[0] != ';');
        let t = s.drop_first();
        assert(forall|i: int| 0 <= i < k - 1 ==> #[trigger] t[i] != ';');
        lemma_until_semi(t, k - 1);
        assert(seq![s[0]] + t.take(k - 1) =~= s.take(k));
    }
}

/// The extension of a stored file name: the characters after the last dot,
/// or empty when there is none.
pub open spec fn ext_of_name(name: Seq<char>) -> Seq<char>
    decreases name.len(),
{
    if name.len() == 0 {
        Seq::empty()
    } else if name.last() == '.' {
        Seq::empty()
    } else if name.contains('.') {
        ext_of_name(name.drop_last()).push(name.last())
    } else {
        Seq::empty()
    }
}

/// Only still images are thumbnailed; video extensions are skipped.
pub open spec fn is_thumbable(ext: Seq<char>) -> bool {
    ext == "png"@ || ext == "jpg"@ || ext == "jpeg"@
}

/// The extension of a stored file name, for routing it to the thumbnailer.
pub fn name_extension(name: &str) -> (r: String)
    ensures
        r@ == ext_of_name(name@),
{
    let n = name.unicode_len();
    // find the last dot
    let mut dot: usize = n;
    let mut i: usize = 0;
    while i < n
        invariant
            i <= n,
            n == name@.len(),
            dot == n || (0 <= dot < i && name@[dot as int] == '.'),
            forall|k: int| (if dot == n { 0 } else { dot + 1 }) <= k < i ==> name@[k] != '.',
        decreases n - i,
    {
        if name.get_char(i) == '.' {
            dot = i;
        }
        i += 1;
    }
    if dot == n {
        proof {
            lemma_ext_no_dot(name@);
        }
        return String::new();
    }
    let mut out: Vec<char> = Vec::new();
    let mut j: usize = dot + 1;
    while j < n
        invariant
            dot + 1 <= j <= n,
            n == name@.len(),
            0 <= dot < n,
            name@[dot as int] == '.',
            forall|k: int| dot < k < n ==> name@[k] != '.',
            out@ == name@.skip(dot + 1).take(j - dot - 1),
        decreases n - j,
    {
        let c = name.get_char(j);
        proof {
            assert(name@.skip(dot + 1).take(j - dot) =~= name@.skip(dot + 1).take(
                j - dot - 1,
            ).push(name@[j as int]));
        }
        out.push(c);
        j += 1;
    }
    proof {
        assert(name@.skip(dot + 1).take(n - dot - 1) =~= name@.skip(dot + 1));
        lemma_ext_after_dot(name@, dot as int);
    }
    crate::text::chars_to_string(&out)
}

/// A name with no dot has no extension.
proof fn lemma_ext_no_dot(name: Seq<char>)
    requires
        forall|k: int| 0 <= k < name.len() ==> name[k] != '.',
    ensures
        ext_of_name(name) == Seq::<char>::empty(),
    decreases name.len(),
{
    if name.len() > 0 {
        assert(name[name.len() - 1] != '.');
        assert(!name.contains('.'));
    }
}

/// After the last dot, `ext_of_name` is exactly the remaining characters.
proof fn lemma_ext_after_dot(name: Seq<char>, dot: int)
    requires
        0 <= dot < name.len(),
        name[dot] == '.',
        forall|k: int| dot < k < name.len() ==> name[k] != '.',
    ensures
        ext_of_name(name) == name.skip(dot + 1),
    decreases name.len(),
{
    if dot == name.len() - 1 {
        assert(name.last() == '.');
        assert(name.skip(dot + 1) =~= Seq::<char>::empty());
    } else {
        assert(name.last() != '.');
        assert(name.contains('.')) by {
            assert(name[dot] == '.');
        }
        let prev = name.drop_last();
        assert(forall|k: int| dot < k < prev.len() ==> prev[k] != '.');
        lemma_ext_after_dot(prev, dot);
        assert(prev.skip(dot + 1).push(name.last()) =~= name.skip(dot + 1));
    }
}

} // verus!
