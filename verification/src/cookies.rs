//! Cookie text: `name=value` lists as pages and the `Cookie` header write
//! them, the `Set-Cookie` values servers send, the `Cookie` header built
//! from stored pairs, and which stored cookies belong to a page's domain.

use vstd::prelude::*;
use crate::text::{
    chars_of, find_char, find_char_spec, slice_vec, split_chars, split_spec, string_of, trim_chars,
    trim_spec,
};

verus! {

/// Pairs of texts as the views of a list of `String` pairs.
pub open spec fn pairs_text(v: Seq<(String, String)>) -> Seq<(Seq<char>, Seq<char>)> {
    v.map_values(|p: (String, String)| (p.0@, p.1@))
}

/// The part of `s` before the first `c`, or all of `s`.
pub open spec fn first_piece_spec(s: Seq<char>, c: char) -> Seq<char> {
    match find_char_spec(s, c) {
        Some(j) => s.take(j),
        None => s,
    }
}

/// One piece of a cookie list: trimmed, split at its first `=`, name and
/// value trimmed; pieces without `=` or with an empty name give nothing.
pub open spec fn cookie_piece_spec(piece: Seq<char>) -> Option<(Seq<char>, Seq<char>)> {
    let t = trim_spec(piece);
    match find_char_spec(t, '=') {
        Some(i) => {
            let n = trim_spec(t.take(i));
            if n.len() > 0 {
                Some((n, trim_spec(t.skip(i + 1))))
            } else {
                None
            }
        },
        None => None,
    }
}

/// The pairs that the pieces give, in order.
pub open spec fn cookie_pairs_spec(pieces: Seq<Seq<char>>) -> Seq<(Seq<char>, Seq<char>)>
    decreases pieces.len(),
{
    if pieces.len() == 0 {
        Seq::empty()
    } else {
        let front = cookie_pairs_spec(pieces.drop_last());
        match cookie_piece_spec(pieces.last()) {
            Some(p) => front.push(p),
            None => front,
        }
    }
}

/// The pairs of a `name1=value1; name2=value2` cookie list.
pub open spec fn cookie_list_spec(s: Seq<char>) -> Seq<(Seq<char>, Seq<char>)> {
    cookie_pairs_spec(split_spec(s, ';'))
}

fn cookie_piece(piece: &[char]) -> (r: Option<(String, String)>)
    ensures
        match r {
            Some((n, v)) => cookie_piece_spec(piece@) == Some((n@, v@)),
            None => cookie_piece_spec(piece@) is None,
        },
{
    let t = trim_chars(piece);
    match find_char(t.as_slice(), '=') {
        Some(i) => {
            let a = slice_vec(t.as_slice(), 0, i);
            let b = slice_vec(t.as_slice(), i + 1, t.len());
            let n = trim_chars(a.as_slice());
            let v = trim_chars(b.as_slice());
            assert(a@ == t@.take(i as int));
            assert(b@ == t@.skip(i + 1));
            if n.len() > 0 {
                Some((string_of(n.as_slice()), string_of(v.as_slice())))
            } else {
                None
            }
        },
        None => None,
    }
}

/// The `(name, value)` pairs of the cookie list `cookie_str`, in order:
/// each `;`-separated piece that holds a `=` and a non-empty name.
pub fn parse_cookie_string(cookie_str: &str) -> (r: Vec<(String, String)>)
    ensures
        pairs_text(r@) == cookie_list_spec(cookie_str@),
{
    let v = chars_of(cookie_str);
    let pieces = split_chars(v.as_slice(), ';');
    let ghost views = pieces@.map_values(|p: Vec<char>| p@);
    let mut r: Vec<(String, String)> = Vec::new();
    let mut i: usize = 0;
    assert(views.take(0) =~= Seq::<Seq<char>>::empty());
    while i < pieces.len()
        invariant
            i <= pieces@.len(),
            views == pieces@.map_values(|p: Vec<char>| p@),
            pairs_text(r@) == cookie_pairs_spec(views.take(i as int)),
        decreases pieces@.len() - i,
    {
        let c = cookie_piece(pieces[i].as_slice());
        proof {
            assert(views.take(i + 1).drop_last() == views.take(i as int));
            assert(views.take(i + 1).last() == pieces@[i as int]@);
        }
        match c {
            Some(p) => {
                assert(pairs_text(r@.push(p)) == pairs_text(r@).push((p.0@, p.1@)));
                r.push(p);
            },
            None => {},
        }
        i = i + 1;
    }
    assert(views.take(pieces@.len() as int) == views);
    r
}

/// One `name=value` entry of a cookie list that a page hands over whole:
/// split at the first `=`, both sides trimmed, kept only when both are
/// non-empty.
pub open spec fn assignment_spec(c: Seq<char>) -> Option<(Seq<char>, Seq<char>)> {
    match find_char_spec(c, '=') {
        Some(i) => {
            let k = trim_spec(c.take(i));
            let v = trim_spec(c.skip(i + 1));
            if k.len() > 0 && v.len() > 0 {
                Some((k, v))
            } else {
                None
            }
        },
        None => None,
    }
}

/// The name and value that the entry `cookie` sets, if any.
pub fn parse_cookie_assignment(cookie: &str) -> (r: Option<(String, String)>)
    ensures
        match r {
            Some((k, v)) => assignment_spec(cookie@) == Some((k@, v@)),
            None => assignment_spec(cookie@) is None,
        },
{
    let c = chars_of(cookie);
    match find_char(c.as_slice(), '=') {
        Some(i) => {
            let a = slice_vec(c.as_slice(), 0, i);
            let b = slice_vec(c.as_slice(), i + 1, c.len());
            let k = trim_chars(a.as_slice());
            let v = trim_chars(b.as_slice());
            assert(a@ == c@.take(i as int));
            assert(b@ == c@.skip(i + 1));
            if k.len() > 0 && v.len() > 0 {
                Some((string_of(k.as_slice()), string_of(v.as_slice())))
            } else {
                None
            }
        },
        None => None,
    }
}

fn first_piece(s: &[char], c: char) -> (r: Vec<char>)
    ensures
        r@ == first_piece_spec(s@, c),
{
    match find_char(s, c) {
        Some(j) => slice_vec(s, 0, j),
        None => slice_vec(s, 0, s.len()),
    }
}

/// The cookie that one `Set-Cookie` value sets: the trimmed text before its
/// first `=` as the name, and the trimmed text up to the next `;` as the
/// value; nothing when there is no `=` or the name is empty.
pub open spec fn set_cookie_spec(h: Seq<char>) -> Option<(Seq<char>, Seq<char>)> {
    match find_char_spec(h, '=') {
        Some(i) => {
            let n = trim_spec(h.take(i));
            if n.len() > 0 {
                Some((n, trim_spec(first_piece_spec(h.skip(i + 1), ';'))))
            } else {
                None
            }
        },
        None => None,
    }
}

/// The cookie that the `Set-Cookie` value `header` sets.
pub fn parse_set_cookie(header: &str) -> (r: Option<(String, String)>)
    ensures
        match r {
            Some((n, v)) => set_cookie_spec(header@) == Some((n@, v@)),
            None => set_cookie_spec(header@) is None,
        },
{
    let h = chars_of(header);
    match find_char(h.as_slice(), '=') {
        Some(i) => {
            let a = slice_vec(h.as_slice(), 0, i);
            let b = slice_vec(h.as_slice(), i + 1, h.len());
            assert(a@ == h@.take(i as int));
            assert(b@ == h@.skip(i + 1));
            let n = trim_chars(a.as_slice());
            let f = first_piece(b.as_slice(), ';');
            let v = trim_chars(f.as_slice());
            if n.len() > 0 {
                Some((string_of(n.as_slice()), string_of(v.as_slice())))
            } else {
                None
            }
        },
        None => None,
    }
}

/// One comma-separated entry of a joined `Set-Cookie` header: trimmed,
/// then read as a `Set-Cookie` value, kept only with a non-empty value.
pub open spec fn joined_entry_spec(piece: Seq<char>) -> Option<(Seq<char>, Seq<char>)> {
    match set_cookie_spec(trim_spec(piece)) {
        Some((n, v)) => if v.len() > 0 { Some((n, v)) } else { None },
        None => None,
    }
}

/// The pairs that a list of comma-separated entries gives, in order.
pub open spec fn joined_pairs_spec(pieces: Seq<Seq<char>>) -> Seq<(Seq<char>, Seq<char>)>
    decreases pieces.len(),
{
    if pieces.len() == 0 {
        Seq::empty()
    } else {
        let front = joined_pairs_spec(pieces.drop_last());
        match joined_entry_spec(pieces.last()) {
            Some(p) => front.push(p),
            None => front,
        }
    }
}

/// The cookies that a `Set-Cookie` header, its values joined by `,`, sets,
/// in order.
pub fn parse_joined_set_cookie(header: &str) -> (r: Vec<(String, String)>)
    ensures
        pairs_text(r@) == joined_pairs_spec(split_spec(header@, ',')),
{
    let v = chars_of(header);
    let pieces = split_chars(v.as_slice(), ',');
    let ghost views = pieces@.map_values(|p: Vec<char>| p@);
    let mut r: Vec<(String, String)> = Vec::new();
    let mut i: usize = 0;
    assert(views.take(0) =~= Seq::<Seq<char>>::empty());
    while i < pieces.len()
        invariant
            i <= pieces@.len(),
            views == pieces@.map_values(|p: Vec<char>| p@),
            pairs_text(r@) == joined_pairs_spec(views.take(i as int)),
        decreases pieces@.len() - i,
    {
        let t = trim_chars(pieces[i].as_slice());
        let ts = string_of(t.as_slice());
        let c = parse_set_cookie(ts.as_str());
        proof {
            assert(views.take(i + 1).drop_last() == views.take(i as int));
            assert(views.take(i + 1).last() == pieces@[i as int]@);
        }
        match c {
            Some((n, val)) => {
                if val.as_str().is_empty() {
                } else {
                    assert(pairs_text(r@.push((n, val))) == pairs_text(r@).push((n@, val@)));
                    r.push((n, val));
                }
            },
            None => {},
        }
        i = i + 1;
    }
    assert(views.take(pieces@.len() as int) == views);
    r
}

// ------------------------------------------------------------ Cookie header

/// The texts of `items` joined with `sep` between them.
pub open spec fn join_spec(items: Seq<Seq<char>>, sep: Seq<char>) -> Seq<char>
    decreases items.len(),
{
    if items.len() == 0 {
        Seq::empty()
    } else if items.len() == 1 {
        items[0]
    } else {
        join_spec(items.drop_last(), sep) + sep + items.last()
    }
}

/// `name=value` for one pair.
pub open spec fn assignment_text(p: (Seq<char>, Seq<char>)) -> Seq<char> {
    p.0 + seq!['='] + p.1
}

/// The `Cookie` header for the pairs: `name=value` items joined by `; `.
pub open spec fn cookie_header_spec(pairs: Seq<(Seq<char>, Seq<char>)>) -> Seq<char> {
    join_spec(pairs.map_values(|p: (Seq<char>, Seq<char>)| assignment_text(p)), seq![';', ' '])
}

/// The `name=value` text of each pair, in order.
pub fn cookie_assignments(pairs: &Vec<(String, String)>) -> (r: Vec<String>)
    ensures
        r@.map_values(|s: String| s@) == pairs_text(pairs@).map_values(
            |p: (Seq<char>, Seq<char>)| assignment_text(p),
        ),
{
    let mut r: Vec<String> = Vec::new();
    let mut i: usize = 0;
    while i < pairs.len()
        invariant
            i <= pairs@.len(),
            r@.len() == i,
            forall|j: int| 0 <= j < i ==> #[trigger] r@[j]@ == assignment_text(
                (pairs@[j].0@, pairs@[j].1@),
            ),
        decreases pairs@.len() - i,
    {
        let mut s = crate::text::owned(pairs[i].0.as_str());
        s.push('=');
        crate::text::push_str(&mut s, pairs[i].1.as_str());
        r.push(s);
        i = i + 1;
    }
    assert(r@.map_values(|s: String| s@) =~= pairs_text(pairs@).map_values(
        |p: (Seq<char>, Seq<char>)| assignment_text(p),
    ));
    r
}

/// The texts of `items` joined with `sep`.
pub fn join(items: &Vec<String>, sep: &str) -> (r: String)
    ensures
        r@ == join_spec(items@.map_values(|s: String| s@), sep@),
{
    let ghost views = items@.map_values(|s: String| s@);
    let mut r = String::new();
    let mut i: usize = 0;
    assert(views.take(0) =~= Seq::<Seq<char>>::empty());
    while i < items.len()
        invariant
            i <= items@.len(),
            views == items@.map_values(|s: String| s@),
            r@ == join_spec(views.take(i as int), sep@),
        decreases items@.len() - i,
    {
        if i > 0 {
            crate::text::push_str(&mut r, sep);
        }
        crate::text::push_str(&mut r, items[i].as_str());
        proof {
            let t = views.take(i + 1);
            assert(t.drop_last() == views.take(i as int));
            assert(t.last() == items@[i as int]@);
            if i == 0 {
                assert(t.len() == 1 && t[0] == items@[0]@);
                assert(r@ == t[0]);
            }
        }
        i = i + 1;
    }
    assert(views.take(items@.len() as int) == views);
    r
}

/// The `Cookie` header for `pairs`.
pub fn cookie_header(pairs: &Vec<(String, String)>) -> (r: String)
    ensures
        r@ == cookie_header_spec(pairs_text(pairs@)),
{
    let items = cookie_assignments(pairs);
    proof {
        reveal_strlit("; ");
    }
    assert("; "@ == seq![';', ' ']);
    join(&items, "; ")
}

// ------------------------------------------------------------ domain match

/// Whether a cookie stored for `cookie_domain` is sent to a page on
/// `domain`: the same domain, the text `. {domain}`, or `domain` ends with
/// the cookie domain without its leading dot.
pub open spec fn cookie_domain_matches_spec(cookie_domain: Seq<char>, domain: Seq<char>) -> bool {
    let bare = if cookie_domain.len() > 0 && cookie_domain[0] == '.' {
        cookie_domain.drop_first()
    } else {
        cookie_domain
    };
    ||| cookie_domain == domain
    ||| cookie_domain == seq!['.', ' '] + domain
    ||| crate::text::ends_with_spec(domain, bare)
}

/// Whether the cookie domain `cookie_domain` covers `domain`.
pub fn cookie_domain_matches(cookie_domain: &str, domain: &str) -> (r: bool)
    ensures
        r == cookie_domain_matches_spec(cookie_domain@, domain@),
{
    let c = chars_of(cookie_domain);
    let d = chars_of(domain);
    let bare = if c.len() > 0 && c[0] == '.' { slice_vec(c.as_slice(), 1, c.len()) } else {
        slice_vec(c.as_slice(), 0, c.len())
    };
    let mut dotted: Vec<char> = Vec::new();
    dotted.push('.');
    dotted.push(' ');
    crate::text::push_vec(&mut dotted, d.as_slice());
    assert(dotted@ == seq!['.', ' '] + d@);
    assert(bare@ == if c@.len() > 0 && c@[0] == '.' { c@.drop_first() } else { c@ });
    let same = crate::text::eq_str(cookie_domain, domain);
    let bare_s = string_of(bare.as_slice());
    let dotted_s = string_of(dotted.as_slice());
    same || crate::text::eq_str(cookie_domain, dotted_s.as_str()) || crate::text::ends_with(
        domain,
        bare_s.as_str(),
    )
}

} // verus!
