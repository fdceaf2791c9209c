//! HTTP text natives: reading a request's method, path and headers, and
//! writing a plain-text response. Sending and receiving is the host's.

use vstd::prelude::*;
use crate::value::{Value, PulseError, PulseResult, text};
use crate::object::Object;
use crate::heap::Heap;
use crate::namemap::NameMap;
use crate::vm::heap_string;
use crate::text::{push_str, push_char, chars_of, string_from_chars, i64_to_string, usize_to_string, int_text, nat_digits};
use crate::utils::{ready, new_string};
use crate::string_utils::{white_space, is_white, trimmed, trim_chars, utf8, upper_case};

verus! {

broadcast use {vstd::std_specs::vec::group_vec_axioms, vstd::string::group_string_axioms};

/// Where the line that starts at `i` ends: the next '\n', or the end.
pub open spec fn line_end(s: Seq<char>, i: int) -> int
    decreases s.len() - i,
{
    if i >= s.len() || s[i] == '\n' { i } else { line_end(s, i + 1) }
}

/// The lines of `s` from `i` on, as `str::lines` gives them: split at each
/// '\n', a '\r' just before it dropped, and no empty line after a final
/// '\n'.
pub open spec fn lines_from(s: Seq<char>, i: int) -> Seq<Seq<char>>
    decreases s.len() + 1 - i,
{
    if i < 0 || i >= s.len() {
        Seq::empty()
    } else {
        let j = line_end(s, i);
        let raw = s.subrange(i, j);
        let line = if j < s.len() && raw.len() > 0 && raw.last() == '\r' { raw.drop_last() } else { raw };
        if j < i || j > s.len() { Seq::empty() } else { seq![line] + lines_from(s, j + 1) }
    }
}

proof fn lemma_line_end(s: Seq<char>, i: int)
    requires
        0 <= i <= s.len(),
    ensures
        i <= line_end(s, i) <= s.len(),
        forall|k: int| i <= k < line_end(s, i) ==> s[k] != '\n',
        line_end(s, i) < s.len() ==> s[line_end(s, i)] == '\n',
    decreases s.len() - i,
{
    if i < s.len() && s[i] != '\n' {
        lemma_line_end(s, i + 1);
    }
}

/// The next line from `i` and where the one after starts.
fn next_line(cs: &Vec<char>, i: usize) -> (r: (Vec<char>, usize))
    requires
        i < cs@.len(),
    ensures
        line_end(cs@, i as int) < cs@.len() ==> r.1 == line_end(cs@, i as int) + 1,
        line_end(cs@, i as int) == cs@.len() ==> r.1 == cs@.len(),
        lines_from(cs@, i as int) == seq![r.0@] + lines_from(cs@, r.1 as int),
{
    proof { lemma_line_end(cs@, i as int); }
    let mut j = i;
    while j < cs.len() && cs[j] != '\n'
        invariant
            i <= j <= cs@.len(),
            line_end(cs@, i as int) == line_end(cs@, j as int),
        decreases cs@.len() - j,
    {
        j = j + 1;
    }
    assert(line_end(cs@, j as int) == j as int);
    let mut line: Vec<char> = Vec::new();
    let mut k = i;
    while k < j
        invariant
            i <= k <= j <= cs@.len(),
            line@ == cs@.subrange(i as int, k as int),
        decreases j - k,
    {
        line.push(cs[k]);
        k = k + 1;
        assert(line@ =~= cs@.subrange(i as int, k as int));
    }
    if j < cs.len() && line.len() > 0 && line[line.len() - 1] == '\r' {
        line.pop();
        assert(line@ =~= cs@.subrange(i as int, j as int).drop_last());
    }
    let next = if j < cs.len() { j + 1 } else { j };
    proof {
        let raw = cs@.subrange(i as int, j as int);
        let want = if (j as int) < cs@.len() && raw.len() > 0 && raw.last() == '\r' { raw.drop_last() } else { raw };
        assert(line@ == want);
        assert(lines_from(cs@, j + 1) =~= Seq::<Seq<char>>::empty() || (j as int) < cs@.len());
        assert(lines_from(cs@, i as int) == seq![want] + lines_from(cs@, j + 1));
        if j == cs@.len() {
            assert(lines_from(cs@, next as int) =~= Seq::<Seq<char>>::empty());
        }
        assert(lines_from(cs@, i as int) =~= seq![line@] + lines_from(cs@, next as int));
    }
    (line, next)
}

/// The lines of a text, as `str::lines` splits it.
pub fn split_lines(cs: &Vec<char>) -> (r: Vec<Vec<char>>)
    ensures
        r@.map_values(|l: Vec<char>| l@) == lines_from(cs@, 0),
{
    let mut out: Vec<Vec<char>> = Vec::new();
    let mut i: usize = 0;
    while i < cs.len()
        invariant
            i <= cs@.len(),
            out@.map_values(|l: Vec<char>| l@) + lines_from(cs@, i as int) == lines_from(cs@, 0),
        decreases cs@.len() - i,
    {
        let (line, next) = next_line(cs, i);
        proof {
            lemma_line_end(cs@, i as int);
            let before = out@.map_values(|l: Vec<char>| l@);
            assert(out@.push(line).map_values(|l: Vec<char>| l@) =~= before.push(line@));
            assert(before.push(line@) + lines_from(cs@, next as int) =~= before + (seq![line@] + lines_from(cs@, next as int)));
        }
        out.push(line);
        i = next;
    }
    proof {
        assert(lines_from(cs@, i as int) =~= Seq::<Seq<char>>::empty());
        assert(out@.map_values(|l: Vec<char>| l@) + Seq::<Seq<char>>::empty() =~= out@.map_values(|l: Vec<char>| l@));
    }
    out
}

/// Where the white space that starts at `i` ends.
pub open spec fn skip_white(s: Seq<char>, i: int) -> int
    decreases s.len() - i,
{
    if i >= s.len() || !white_space(s[i]) { i } else { skip_white(s, i + 1) }
}

/// Where the word that starts at `i` ends.
pub open spec fn word_end(s: Seq<char>, i: int) -> int
    decreases s.len() - i,
{
    if i >= s.len() || white_space(s[i]) { i } else { word_end(s, i + 1) }
}

proof fn lemma_skip_white(s: Seq<char>, i: int)
    requires
        0 <= i <= s.len(),
    ensures
        i <= skip_white(s, i) <= s.len(),
        skip_white(s, i) < s.len() ==> !white_space(s[skip_white(s, i)]),
    decreases s.len() - i,
{
    if i < s.len() && white_space(s[i]) {
        lemma_skip_white(s, i + 1);
    }
}

proof fn lemma_word_end(s: Seq<char>, i: int)
    requires
        0 <= i <= s.len(),
    ensures
        i <= word_end(s, i) <= s.len(),
    decreases s.len() - i,
{
    if i < s.len() && !white_space(s[i]) {
        lemma_word_end(s, i + 1);
    }
}

/// The words of `s` from `i` on, as `str::split_whitespace` gives them.
pub open spec fn words_from(s: Seq<char>, i: int) -> Seq<Seq<char>>
    decreases s.len() - i,
{
    let a = skip_white(s, i);
    if i < 0 || a >= s.len() || a < i {
        Seq::empty()
    } else {
        let b = word_end(s, a);
        if b <= a || b > s.len() { Seq::empty() } else { seq![s.subrange(a, b)] + words_from(s, b) }
    }
}

/// The next word from `i`, if any, and where it ends.
fn next_word(cs: &Vec<char>, i: usize) -> (r: Option<(Vec<char>, usize)>)
    requires
        i <= cs@.len(),
    ensures
        match r {
            Some((w, e)) => i < e <= cs@.len() && words_from(cs@, i as int) == seq![w@] + words_from(cs@, e as int),
            None => words_from(cs@, i as int) == Seq::<Seq<char>>::empty(),
        },
{
    proof { lemma_skip_white(cs@, i as int); }
    let mut a = i;
    while a < cs.len() && is_white(cs[a])
        invariant
            i <= a <= cs@.len(),
            skip_white(cs@, i as int) == skip_white(cs@, a as int),
        decreases cs@.len() - a,
    {
        a = a + 1;
    }
    if a >= cs.len() {
        return None;
    }
    proof { lemma_word_end(cs@, a as int); }
    let mut b = a;
    let mut w: Vec<char> = Vec::new();
    while b < cs.len() && !is_white(cs[b])
        invariant
            a <= b <= cs@.len(),
            word_end(cs@, a as int) == word_end(cs@, b as int),
            w@ == cs@.subrange(a as int, b as int),
        decreases cs@.len() - b,
    {
        w.push(cs[b]);
        b = b + 1;
        assert(w@ =~= cs@.subrange(a as int, b as int));
    }
    Some((w, b))
}

/// The position of the first ':' at or after `i`, if any.
pub open spec fn colon_at(s: Seq<char>, i: int) -> Option<int>
    decreases s.len() - i,
{
    if i < 0 || i >= s.len() { None } else if s[i] == ':' { Some(i) } else { colon_at(s, i + 1) }
}

/// The headers of request lines `ls` from line `k` on, up to the first
/// empty line: each line with a ':' gives its trimmed name and trimmed
/// value, split at the first ':'.
pub open spec fn header_entries(ls: Seq<Seq<char>>, k: int) -> Seq<(Seq<char>, Seq<char>)>
    decreases ls.len() - k,
{
    if k < 0 || k >= ls.len() || ls[k].len() == 0 {
        Seq::empty()
    } else {
        let l = ls[k];
        let here = match colon_at(l, 0) {
            Some(c) => seq![(trimmed(l.subrange(0, c)), trimmed(l.subrange(c + 1, l.len() as int)))],
            None => Seq::empty(),
        };
        here + header_entries(ls, k + 1)
    }
}

/// The map of the entries, a later name replacing the value of an earlier
/// one.
pub open spec fn entries_map(es: Seq<(Seq<char>, Seq<char>)>) -> Map<Seq<char>, Seq<char>>
    decreases es.len(),
{
    if es.len() == 0 { Map::empty() } else { entries_map(es.drop_last()).insert(es.last().0, es.last().1) }
}

proof fn lemma_colon_at(s: Seq<char>, i: int)
    requires
        0 <= i,
    ensures
        colon_at(s, i) matches Some(c) ==> i <= c < s.len() && s[c] == ':',
    decreases s.len() - i,
{
    if i < s.len() && s[i] != ':' {
        lemma_colon_at(s, i + 1);
    }
}

/// The first ':' of a line, if any.
fn find_colon(l: &Vec<char>) -> (r: Option<usize>)
    ensures
        match r {
            Some(c) => colon_at(l@, 0) == Some(c as int),
            None => colon_at(l@, 0) is None,
        },
{
    let mut i: usize = 0;
    while i < l.len()
        invariant
            i <= l@.len(),
            colon_at(l@, 0) == colon_at(l@, i as int),
        decreases l@.len() - i,
    {
        if l[i] == ':' {
            return Some(i);
        }
        i = i + 1;
    }
    None
}

fn sub_chars(l: &Vec<char>, a: usize, b: usize) -> (r: Vec<char>)
    requires
        a <= b <= l@.len(),
    ensures
        r@ == l@.subrange(a as int, b as int),
{
    let mut out: Vec<char> = Vec::new();
    let mut i = a;
    while i < b
        invariant
            a <= i <= b <= l@.len(),
            out@ == l@.subrange(a as int, i as int),
        decreases b - i,
    {
        out.push(l[i]);
        i = i + 1;
        assert(out@ =~= l@.subrange(a as int, i as int));
    }
    out
}

/// The string an argument holds.
pub open spec fn string_in(h: Heap, v: Value) -> Option<Seq<char>> {
    if v is Obj { heap_string(h, v->Obj_0) } else { None }
}

/// `v` refers to a string holding `t`.
pub open spec fn text_at(h: Heap, v: Value, t: Seq<char>) -> bool {
    v is Obj && heap_string(h, v->Obj_0) == Some(t)
}

/// The parts of a request text: its method, path and headers; none when
/// it has no line, or fewer than two words on its first line.
pub open spec fn request_parts(raw: Seq<char>) -> Option<(Seq<char>, Seq<char>, Map<Seq<char>, Seq<char>>)> {
    let ls = lines_from(raw, 0);
    if ls.len() == 0 {
        None
    } else {
        let ws = words_from(ls[0], 0);
        if ws.len() < 2 { None } else { Some((ws[0], ws[1], entries_map(header_entries(ls, 1)))) }
    }
}

/// `http_parse(raw)`: a new map of the request's `method` and `path` (new
/// strings) and `headers` (a new map from names to new strings). A text
/// with no line, or fewer than two words on its first line, is a runtime
/// error.
pub fn http_parse_native(heap: &mut Heap, args: &[Value]) -> (r: PulseResult<Value>)
    requires
        ready(*old(heap)),
    ensures
        ready(*final(heap)),
        r is Err ==> *final(heap) == *old(heap),
        old(heap).live().submap_of(final(heap).live()),
        args@.len() != 1 ==> crate::value::is_runtime_error(r),
        args@.len() == 1 ==> match string_in(*old(heap), args@[0]) {
            Some(raw) => match request_parts(raw) {
                Some((method, path, headers)) => {
                    &&& r matches Ok(Value::Obj(x))
                    &&& !old(heap).live().dom().contains(x.0 as int)
                    &&& final(heap).live().dom().contains(x.0 as int)
                    &&& final(heap).live()[x.0 as int] matches Object::Dict(m)
                    &&& m@.dom() == set!["method"@, "path"@, "headers"@]
                    &&& text_at(*final(heap), m@["method"@], method)
                    &&& text_at(*final(heap), m@["path"@], path)
                    &&& crate::vm::object_of(*final(heap), m@["headers"@]) matches Some(Object::Dict(hm))
                    &&& hm@.dom() == headers.dom()
                    &&& forall|k: Seq<char>| #[trigger] headers.dom().contains(k) ==> text_at(*final(heap), hm@[k], headers[k])
                },
                None => crate::value::is_runtime_error(r),
            },
            None => crate::value::is_type_mismatch(r),
        },
{
    if args.len() != 1 {
        return Err(PulseError::RuntimeError(text("http_parse expects 1 argument")));
    }
    let raw = match args[0] {
        Value::Obj(x) => match heap.get(x) {
            Some(Object::String(s)) => chars_of(s.as_str()),
            _ => {
                return Err(PulseError::TypeMismatch { expected: text("string"), got: text("object") });
            },
        },
        _ => {
            return Err(PulseError::TypeMismatch { expected: text("string"), got: args[0].kind_name() });
        },
    };
    let ls = split_lines(&raw);
    let ghost lv = ls@.map_values(|l: Vec<char>| l@);
    if ls.len() == 0 {
        return Err(PulseError::RuntimeError(text("Empty request")));
    }
    assert(lv[0] == ls@[0]@);
    let (method, e1) = match next_word(&ls[0], 0) {
        Some(w) => w,
        None => {
            return Err(PulseError::RuntimeError(text("Invalid HTTP request line")));
        },
    };
    let (path, _e2) = match next_word(&ls[0], e1) {
        Some(w) => w,
        None => {
            return Err(PulseError::RuntimeError(text("Invalid HTTP request line")));
        },
    };
    let ghost h0 = *heap;
    proof { heap.lemma_wf(); }
    let mut headers: NameMap<Value> = NameMap::new();
    let ghost mut done: Seq<(Seq<char>, Seq<char>)> = Seq::empty();
    let mut k: usize = 1;
    while k < ls.len() && ls[k].len() > 0
        invariant
            1 <= k <= ls@.len(),
            lv == ls@.map_values(|l: Vec<char>| l@),
            ready(*heap),
            h0.live().submap_of(heap.live()),
            headers.wf(),
            done + header_entries(lv, k as int) == header_entries(lv, 1),
            headers@.dom() == entries_map(done).dom(),
            forall|n: Seq<char>| #[trigger] entries_map(done).dom().contains(n) ==> text_at(*heap, headers@[n], entries_map(done)[n]),
            forall|n: Seq<char>| #[trigger] headers@.dom().contains(n) ==> headers@[n] is Obj && !h0.live().dom().contains(headers@[n]->Obj_0.0 as int),
        decreases ls@.len() - k,
    {
        let line = &ls[k];
        assert(lv[k as int] == line@);
        proof { lemma_colon_at(line@, 0); }
        match find_colon(line) {
            Some(c) => {
                let name = string_from_chars(trim_chars(&sub_chars(line, 0, c)).as_slice());
                let val = string_from_chars(trim_chars(&sub_chars(line, c + 1, line.len())).as_slice());
                let ghost hp = *heap;
                let ghost pair = (name@, val@);
                let x = heap.allocate(Object::String(val));
                proof {
                    vstd::map_lib::lemma_submap_of_trans(h0.live(), hp.live(), heap.live());
                }
                headers.insert(name, Value::Obj(x));
                proof {
                    let d2 = done.push(pair);
                    assert(d2.drop_last() =~= done);
                    assert(header_entries(lv, k as int) =~= seq![pair] + header_entries(lv, k + 1));
                    assert(d2 + header_entries(lv, k + 1) =~= done + header_entries(lv, k as int));
                    assert(headers@.dom() =~= entries_map(d2).dom());
                    assert forall|n: Seq<char>| #[trigger] entries_map(d2).dom().contains(n) implies text_at(*heap, headers@[n], entries_map(d2)[n]) by {
                        if n != pair.0 {
                            assert(text_at(hp, headers@[n], entries_map(done)[n]));
                        }
                    }
                    if h0.live().dom().contains(x.0 as int) {
                        assert(hp.live().dom().contains(x.0 as int));
                    }
                    done = d2;
                }
            },
            None => {
                proof {
                    assert(header_entries(lv, k as int) =~= header_entries(lv, k + 1));
                }
            },
        }
        k = k + 1;
    }
    proof {
        assert(header_entries(lv, k as int) =~= Seq::<(Seq<char>, Seq<char>)>::empty());
        assert(done =~= header_entries(lv, 1));
    }
    let ghost hq = *heap;
    let hx = heap.allocate(Object::Dict(headers));
    let ghost hr = *heap;
    let mx = heap.allocate(Object::String(string_from_chars(method.as_slice())));
    let ghost hs = *heap;
    let px = heap.allocate(Object::String(string_from_chars(path.as_slice())));
    let ghost ht = *heap;
    proof {
        reveal_strlit("method");
        reveal_strlit("path");
        reveal_strlit("headers");
    }
    let mut m: NameMap<Value> = NameMap::new();
    m.insert(text("method"), Value::Obj(mx));
    m.insert(text("path"), Value::Obj(px));
    m.insert(text("headers"), Value::Obj(hx));
    let x = heap.allocate(Object::Dict(m));
    proof {
        vstd::map_lib::lemma_submap_of_trans(hq.live(), hr.live(), hs.live());
        vstd::map_lib::lemma_submap_of_trans(hq.live(), hs.live(), ht.live());
        vstd::map_lib::lemma_submap_of_trans(hq.live(), ht.live(), heap.live());
        vstd::map_lib::lemma_submap_of_trans(hr.live(), hs.live(), ht.live());
        vstd::map_lib::lemma_submap_of_trans(hr.live(), ht.live(), heap.live());
        vstd::map_lib::lemma_submap_of_trans(hs.live(), ht.live(), heap.live());
        vstd::map_lib::lemma_submap_of_trans(h0.live(), hq.live(), heap.live());
        assert("method"@.len() == 6 && "path"@.len() == 4 && "headers"@.len() == 7);
        assert(m@.dom() =~= set!["method"@, "path"@, "headers"@]);
        assert(m@["headers"@] == Value::Obj(hx));
        assert(m@["method"@] == Value::Obj(mx));
        assert(m@["path"@] == Value::Obj(px));
        assert forall|n: Seq<char>| #[trigger] entries_map(done).dom().contains(n) implies text_at(*heap, headers@[n], entries_map(done)[n]) by {
            assert(text_at(hq, headers@[n], entries_map(done)[n]));
        }
        if old(heap).live().dom().contains(x.0 as int) {
            assert(ht.live().dom().contains(x.0 as int));
        }
        let ws = words_from(lv[0], 0);
        assert(ws[0] == method@);
        assert(ws[1] == path@);
    }
    Ok(Value::Obj(x))
}

/// The reason phrase of a status code.
pub open spec fn status_text(status: i64) -> Seq<char> {
    if status == 200 { "OK"@ } else if status == 201 { "Created"@ } else if status == 400 { "Bad Request"@ }
    else if status == 404 { "Not Found"@ } else if status == 500 { "Internal Server Error"@ } else { "Unknown"@ }
}

/// The response `http_format_response` writes.
pub open spec fn response_text(status: i64, body: Seq<char>) -> Seq<char> {
    "HTTP/1.1 "@ + int_text(status as int) + " "@ + status_text(status) + "\r\nContent-Length: "@
        + nat_digits((utf8(body).len() as usize) as nat) + "\r\nContent-Type: text/plain\r\nConnection: close\r\n\r\n"@ + body
}

/// `http_format_response(status, body)`: a new string holding a plain-text
/// HTTP/1.1 response with the status, the body's length in bytes, and the
/// body.
pub fn http_format_response_native(heap: &mut Heap, args: &[Value]) -> (r: PulseResult<Value>)
    requires
        ready(*old(heap)),
    ensures
        ready(*final(heap)),
        args@.len() != 2 ==> crate::value::is_runtime_error(r) && *final(heap) == *old(heap),
        args@.len() == 2 ==> match (args@[0], string_in(*old(heap), args@[1])) {
            (Value::Int(status), Some(body)) => new_string(*old(heap), *final(heap), r, response_text(status, body)),
            _ => crate::value::is_type_mismatch(r) && *final(heap) == *old(heap),
        },
{
    if args.len() != 2 {
        return Err(PulseError::RuntimeError(text("http_format_response expects 2 arguments")));
    }
    let status = args[0].as_int()?;
    let body = match args[1] {
        Value::Obj(x) => match heap.get(x) {
            Some(Object::String(s)) => s.clone(),
            _ => {
                return Err(PulseError::TypeMismatch { expected: text("string"), got: text("object") });
            },
        },
        _ => {
            return Err(PulseError::TypeMismatch { expected: text("string"), got: args[1].kind_name() });
        },
    };
    proof {
        reveal_strlit("OK");
        reveal_strlit("Created");
        reveal_strlit("Bad Request");
        reveal_strlit("Not Found");
        reveal_strlit("Internal Server Error");
        reveal_strlit("Unknown");
    }
    let reason = if status == 200 { "OK" } else if status == 201 { "Created" } else if status == 400 { "Bad Request" }
        else if status == 404 { "Not Found" } else if status == 500 { "Internal Server Error" } else { "Unknown" };
    assert(reason@ == status_text(status));
    proof {
        reveal_strlit("HTTP/1.1 ");
        reveal_strlit(" ");
        reveal_strlit("\r\nContent-Length: ");
        reveal_strlit("\r\nContent-Type: text/plain\r\nConnection: close\r\n\r\n");
    }
    let mut s = text("HTTP/1.1 ");
    push_str(&mut s, i64_to_string(status).as_str());
    push_str(&mut s, " ");
    push_str(&mut s, reason);
    push_str(&mut s, "\r\nContent-Length: ");
    let blen = body.as_str().len();
    assert(blen == utf8(body@).len() as usize);
    push_str(&mut s, usize_to_string(blen).as_str());
    push_str(&mut s, "\r\nContent-Type: text/plain\r\nConnection: close\r\n\r\n");
    push_str(&mut s, body.as_str());
    assert(s@ == response_text(status, body@));
    let x = heap.allocate(Object::String(s));
    Ok(Value::Obj(x))
}


/// The methods `http_request` sends.
pub open spec fn http_method_known(m: Seq<char>) -> bool {
    m == "GET"@ || m == "POST"@ || m == "PUT"@ || m == "DELETE"@ || m == "PATCH"@ || m == "HEAD"@
}

/// The methods whose request carries the body argument.
pub open spec fn http_method_sends_body(m: Seq<char>) -> bool {
    m == "POST"@ || m == "PUT"@ || m == "PATCH"@
}

/// What one value of a request's header map sends.
#[derive(Debug)]
pub enum HeaderValue {
    /// The text of a string.
    Text(String),
    /// Nothing: the value is unit or an object other than a string.
    Skipped,
    /// A scalar, sent as the host's debug text of it.
    Shown(Value),
}

/// `hv` is what a header value `v` sends.
pub open spec fn header_sent(h: Heap, v: Value, hv: HeaderValue) -> bool {
    match v {
        Value::Obj(x) => match heap_string(h, x) {
            Some(t) => hv matches HeaderValue::Text(s) && s@ == t,
            None => hv is Skipped,
        },
        Value::Unit => hv is Skipped,
        _ => hv matches HeaderValue::Shown(w) && w == v,
    }
}

/// `hs` takes the entries `es` of a header map in order, each name with
/// what its value sends.
pub open spec fn headers_sent(h: Heap, es: Seq<(String, Value)>, hs: Seq<(String, HeaderValue)>) -> bool {
    &&& hs.len() == es.len()
    &&& forall|i: int| 0 <= i < hs.len() ==> (#[trigger] hs[i]).0@ == es[i].0@ && header_sent(h, es[i].1, hs[i].1)
}

/// A request that `http_request` sends: the upper-cased method, the URL,
/// the body where the method carries one, and the headers.
pub struct HttpRequest {
    pub method: String,
    pub url: String,
    pub body: Option<String>,
    pub headers: Vec<(String, HeaderValue)>,
}

/// The string an argument holds, copied.
fn string_arg(heap: &Heap, v: Value) -> (r: PulseResult<String>)
    requires
        heap.wf(),
    ensures
        match string_in(*heap, v) {
            Some(t) => r matches Ok(s) && s@ == t,
            None => crate::value::is_type_mismatch(r),
        },
{
    match v {
        Value::Obj(x) => match heap.get(x) {
            Some(Object::String(s)) => Ok(s.clone()),
            _ => Err(PulseError::TypeMismatch { expected: text("string"), got: text("object") }),
        },
        _ => Err(PulseError::TypeMismatch { expected: text("string"), got: v.kind_name() }),
    }
}

/// What each entry of a header map sends, in entry order.
fn header_values(heap: &Heap, m: &NameMap<Value>) -> (r: Vec<(String, HeaderValue)>)
    requires
        heap.wf(),
    ensures
        headers_sent(*heap, m.entries@, r@),
{
    let mut out: Vec<(String, HeaderValue)> = Vec::new();
    let mut i: usize = 0;
    while i < m.entries.len()
        invariant
            heap.wf(),
            i <= m.entries@.len(),
            out@.len() == i,
            forall|j: int| 0 <= j < i ==> (#[trigger] out@[j]).0@ == m.entries@[j].0@ && header_sent(*heap, m.entries@[j].1, out@[j].1),
        decreases m.entries@.len() - i,
    {
        let v = m.entries[i].1;
        let hv = match v {
            Value::Obj(x) => match heap.get(x) {
                Some(Object::String(s)) => HeaderValue::Text(s.clone()),
                _ => HeaderValue::Skipped,
            },
            Value::Unit => HeaderValue::Skipped,
            _ => HeaderValue::Shown(v),
        };
        out.push((text(m.entries[i].0.as_str()), hv));
        i = i + 1;
    }
    out
}

/// `http_request(method, url, body?, headers?)`, up to sending: fewer than
/// two arguments is a runtime error; a method, URL or body that is not a
/// string, or headers that are not a map, a type mismatch, in that order;
/// then a method other than GET, POST, PUT, DELETE, PATCH and HEAD (after
/// upper-casing) is a runtime error naming it. Otherwise the request to
/// send: POST, PUT and PATCH carry the body (empty when it is not given),
/// and each header entry is sent by what its value holds.
pub fn http_request_plan(heap: &Heap, args: &[Value]) -> (r: PulseResult<HttpRequest>)
    requires
        heap.wf(),
    ensures
        args@.len() < 2 ==> (r matches Err(PulseError::RuntimeError(msg)) && msg@ == "http_request expects at least 2 arguments"@),
        args@.len() >= 2 ==> {
            let body = if args@.len() > 2 { string_in(*heap, args@[2]) } else { Some(Seq::<char>::empty()) };
            if string_in(*heap, args@[0]) is None || string_in(*heap, args@[1]) is None || body is None
                || (args@.len() > 3 && !(crate::vm::object_of(*heap, args@[3]) matches Some(Object::Dict(_)))) {
                crate::value::is_type_mismatch(r)
            } else {
                let m = upper_case(string_in(*heap, args@[0])->0);
                if !http_method_known(m) {
                    r matches Err(PulseError::RuntimeError(msg)) && msg@ == "Unsupported HTTP method: "@ + m
                } else {
                    &&& r matches Ok(p)
                    &&& p.method@ == m
                    &&& p.url@ == string_in(*heap, args@[1])->0
                    &&& (http_method_sends_body(m) ==> (p.body matches Some(b) && b@ == body->0))
                    &&& (!http_method_sends_body(m) ==> p.body is None)
                    &&& (args@.len() > 3 ==> (crate::vm::object_of(*heap, args@[3]) matches Some(Object::Dict(hm))
                        && headers_sent(*heap, hm.entries@, p.headers@)))
                    &&& (args@.len() <= 3 ==> p.headers@.len() == 0)
                }
            }
        },
{
    if args.len() < 2 {
        return Err(PulseError::RuntimeError(text("http_request expects at least 2 arguments")));
    }
    let raw_method = string_arg(heap, args[0])?;
    let url = string_arg(heap, args[1])?;
    let body = if args.len() > 2 { string_arg(heap, args[2])? } else { String::new() };
    let headers = if args.len() > 3 {
        match args[3] {
            Value::Obj(x) => match heap.get(x) {
                Some(Object::Dict(m)) => header_values(heap, m),
                _ => {
                    return Err(PulseError::TypeMismatch { expected: text("map"), got: text("object") });
                },
            },
            _ => {
                return Err(PulseError::TypeMismatch { expected: text("map"), got: args[3].kind_name() });
            },
        }
    } else {
        Vec::new()
    };
    let method = crate::string_utils::to_upper(raw_method.as_str());
    let m = method.as_str();
    let known = crate::namemap::str_equal(m, "GET") || crate::namemap::str_equal(m, "POST")
        || crate::namemap::str_equal(m, "PUT") || crate::namemap::str_equal(m, "DELETE")
        || crate::namemap::str_equal(m, "PATCH") || crate::namemap::str_equal(m, "HEAD");
    if !known {
        let mut msg = text("Unsupported HTTP method: ");
        push_str(&mut msg, m);
        return Err(PulseError::RuntimeError(msg));
    }
    let sends = crate::namemap::str_equal(m, "POST") || crate::namemap::str_equal(m, "PUT")
        || crate::namemap::str_equal(m, "PATCH");
    let body = if sends { Some(body) } else { None };
    Ok(HttpRequest { method, url, body, headers })
}

/// The map `http_request` answers with, once the host has the reply: a new
/// map of `status`, `headers` (a new map of the reply's headers, a later
/// one of a name replacing an earlier), `body_id`, `method` and an empty
/// `body`, each text a new string.
pub fn http_result_map(heap: &mut Heap, method: String, status: u16, headers: Vec<(String, String)>, body_id: String) -> (r: Value)
    requires
        ready(*old(heap)),
    ensures
        ready(*final(heap)),
        old(heap).live().submap_of(final(heap).live()),
        r matches Value::Obj(x) && !old(heap).live().dom().contains(x.0 as int),
        ({
            let hs = headers@.map_values(|e: (String, String)| (e.0@, e.1@));
            &&& crate::vm::object_of(*final(heap), r) matches Some(Object::Dict(m))
            &&& m@.dom() == set!["status"@, "headers"@, "body_id"@, "method"@, "body"@]
            &&& m@["status"@] == Value::Int(status as i64)
            &&& text_at(*final(heap), m@["method"@], method@)
            &&& text_at(*final(heap), m@["body_id"@], body_id@)
            &&& text_at(*final(heap), m@["body"@], Seq::<char>::empty())
            &&& crate::vm::object_of(*final(heap), m@["headers"@]) matches Some(Object::Dict(hm))
            &&& hm@.dom() == entries_map(hs).dom()
            &&& forall|k: Seq<char>| #[trigger] entries_map(hs).dom().contains(k) ==> text_at(*final(heap), hm@[k], entries_map(hs)[k])
        }),
{
    let ghost h0 = *heap;
    let ghost hs = headers@.map_values(|e: (String, String)| (e.0@, e.1@));
    proof { heap.lemma_wf(); }
    let mut hmap: NameMap<Value> = NameMap::new();
    let mut i: usize = 0;
    while i < headers.len()
        invariant
            i <= headers@.len(),
            hs == headers@.map_values(|e: (String, String)| (e.0@, e.1@)),
            ready(*heap),
            h0.live().submap_of(heap.live()),
            hmap.wf(),
            hmap@.dom() == entries_map(hs.subrange(0, i as int)).dom(),
            forall|n: Seq<char>| #[trigger] entries_map(hs.subrange(0, i as int)).dom().contains(n) ==> text_at(*heap, hmap@[n], entries_map(hs.subrange(0, i as int))[n]),
            forall|n: Seq<char>| #[trigger] hmap@.dom().contains(n) ==> hmap@[n] is Obj && !h0.live().dom().contains(hmap@[n]->Obj_0.0 as int),
        decreases headers@.len() - i,
    {
        let ghost hp = *heap;
        let ghost done = hs.subrange(0, i as int);
        let ghost pair = hs[i as int];
        let x = heap.allocate(Object::String(text(headers[i].1.as_str())));
        proof {
            vstd::map_lib::lemma_submap_of_trans(h0.live(), hp.live(), heap.live());
        }
        hmap.insert(text(headers[i].0.as_str()), Value::Obj(x));
        i = i + 1;
        proof {
            let d2 = hs.subrange(0, i as int);
            assert(d2.drop_last() =~= done);
            assert(d2.last() == pair);
            assert(hmap@.dom() =~= entries_map(d2).dom());
            assert forall|n: Seq<char>| #[trigger] entries_map(d2).dom().contains(n) implies text_at(*heap, hmap@[n], entries_map(d2)[n]) by {
                if n != pair.0 {
                    assert(text_at(hp, hmap@[n], entries_map(done)[n]));
                }
            }
            if h0.live().dom().contains(x.0 as int) {
                assert(hp.live().dom().contains(x.0 as int));
            }
        }
    }
    proof {
        assert(hs.subrange(0, i as int) =~= hs);
    }
    let ghost hq = *heap;
    let ghost hmv = hmap@;
    let hx = heap.allocate(Object::Dict(hmap));
    let ghost hr = *heap;
    let mx = heap.allocate(Object::String(method));
    let ghost hs2 = *heap;
    let bx = heap.allocate(Object::String(body_id));
    let ghost ht = *heap;
    let ex = heap.allocate(Object::String(String::new()));
    let ghost hu = *heap;
    proof {
        reveal_strlit("status");
        reveal_strlit("headers");
        reveal_strlit("body_id");
        reveal_strlit("method");
        reveal_strlit("body");
    }
    let mut m: NameMap<Value> = NameMap::new();
    m.insert(text("status"), Value::Int(status as i64));
    m.insert(text("headers"), Value::Obj(hx));
    m.insert(text("body_id"), Value::Obj(bx));
    m.insert(text("method"), Value::Obj(mx));
    m.insert(text("body"), Value::Obj(ex));
    let x = heap.allocate(Object::Dict(m));
    proof {
        vstd::map_lib::lemma_submap_of_trans(hq.live(), hr.live(), hs2.live());
        vstd::map_lib::lemma_submap_of_trans(hq.live(), hs2.live(), ht.live());
        vstd::map_lib::lemma_submap_of_trans(hq.live(), ht.live(), hu.live());
        vstd::map_lib::lemma_submap_of_trans(hq.live(), hu.live(), heap.live());
        vstd::map_lib::lemma_submap_of_trans(hr.live(), hs2.live(), ht.live());
        vstd::map_lib::lemma_submap_of_trans(hr.live(), ht.live(), hu.live());
        vstd::map_lib::lemma_submap_of_trans(hr.live(), hu.live(), heap.live());
        vstd::map_lib::lemma_submap_of_trans(hs2.live(), ht.live(), hu.live());
        vstd::map_lib::lemma_submap_of_trans(hs2.live(), hu.live(), heap.live());
        vstd::map_lib::lemma_submap_of_trans(ht.live(), hu.live(), heap.live());
        vstd::map_lib::lemma_submap_of_trans(h0.live(), hq.live(), heap.live());
        assert("status"@.len() == 6 && "headers"@.len() == 7 && "body_id"@.len() == 7 && "method"@.len() == 6 && "body"@.len() == 4);
        assert("status"@[0] != "method"@[0] && "headers"@[0] != "body_id"@[0]);
        assert(m@.dom() =~= set!["status"@, "headers"@, "body_id"@, "method"@, "body"@]);
        assert(m@["status"@] == Value::Int(status as i64));
        assert(m@["headers"@] == Value::Obj(hx));
        assert(m@["body_id"@] == Value::Obj(bx));
        assert(m@["method"@] == Value::Obj(mx));
        assert(m@["body"@] == Value::Obj(ex));
        assert forall|n: Seq<char>| #[trigger] entries_map(hs).dom().contains(n) implies text_at(*heap, hmv[n], entries_map(hs)[n]) by {
            assert(text_at(hq, hmv[n], entries_map(hs)[n]));
        }
        if old(heap).live().dom().contains(x.0 as int) {
            assert(hu.live().dom().contains(x.0 as int));
        }
    }
    Value::Obj(x)
}


/// The reason phrases `http_format_response` writes: 200 is "OK", 201
/// "Created", 400 "Bad Request", 404 "Not Found", 500 "Internal Server
/// Error", and any other status "Unknown"; no two of the known statuses
/// share a phrase.
pub proof fn law_status_phrases(status: i64)
    ensures
        status_text(200) == "OK"@,
        status_text(201) == "Created"@,
        status_text(400) == "Bad Request"@,
        status_text(404) == "Not Found"@,
        status_text(500) == "Internal Server Error"@,
        status != 200 && status != 201 && status != 400 && status != 404 && status != 500 ==> status_text(status) == "Unknown"@,
        ({
            let known = seq![200i64, 201, 400, 404, 500];
            forall|i: int, j: int| 0 <= i < j < 5 ==> status_text(known[i]) != status_text(known[j])
        }),
{
    reveal_strlit("OK");
    reveal_strlit("Created");
    reveal_strlit("Bad Request");
    reveal_strlit("Not Found");
    reveal_strlit("Internal Server Error");
    reveal_strlit("Unknown");
    assert("OK"@.len() == 2 && "Created"@.len() == 7 && "Bad Request"@.len() == 11 && "Not Found"@.len() == 9
        && "Internal Server Error"@.len() == 21);
}
} // verus!
