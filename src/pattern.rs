//! Pattern actions: `{name}` captures over whitespace tokens, and template expansion.
use vstd::prelude::*;
use vstd::string::*;

use crate::action::{ActionResult, ActionResultView, PatternActionType, PatternActionView, ResultAction, ResultActionView};
use crate::text::{
    chars_of, find_char, index_of, lemma_index_of_bounds, split_whitespace_owned,
    str_contains_char, strings_view, substring, whitespace_tokens,
};

verus! {

/// A capture: the placeholder's name and the text it matched.
pub type Capture = (Seq<char>, Seq<char>);

pub open spec fn captures_view(v: Seq<(String, String)>) -> Seq<Capture> {
    v.map_values(|c: (String, String)| (c.0@, c.1@))
}

/// The first byte of the UTF-8 encoding of `c`.
pub open spec fn lead_byte(c: char) -> int {
    let u = c as u32 as int;
    if u < 0x80 {
        u
    } else if u < 0x800 {
        0xC0 + u / 64
    } else if u < 0x10000 {
        0xE0 + u / 4096
    } else {
        0xF0 + u / 262144
    }
}

/// Where a capture ends: before the first character of `s` whose encoding starts
/// with byte `b`, or at the end of `s`.
pub open spec fn capture_end(s: Seq<char>, b: int) -> int
    decreases s.len(),
{
    if s.len() == 0 {
        0
    } else if lead_byte(s[0]) == b {
        0
    } else {
        1 + capture_end(s.drop_first(), b)
    }
}

pub open spec fn prepend(c: Capture, o: Option<Seq<Capture>>) -> Option<Seq<Capture>> {
    match o {
        Some(r) => Some(seq![c] + r),
        None => None,
    }
}

/// Matches one pattern token `p` against one input token `s`, walking the bytes:
/// literals must agree, and each `{name}` takes the input up to the next literal byte
/// of the pattern (or to the end when it closes the token); an empty capture fails.
pub open spec fn match_token(p: Seq<char>, s: Seq<char>) -> Option<Seq<Capture>>
    decreases p.len(),
{
    if p.len() == 0 {
        if s.len() == 0 {
            Some(Seq::empty())
        } else {
            None
        }
    } else if p[0] == '{' {
        match index_of(p.drop_first(), '}') {
            None => None,
            Some(k) => {
                let name = p.subrange(1, k + 1);
                let rest = p.subrange(k + 2, p.len() as int);
                let end = if rest.len() > 0 {
                    capture_end(s, lead_byte(rest[0]))
                } else {
                    s.len() as int
                };
                if end > 0 && 0 <= k && k + 2 <= p.len() {
                    prepend((name, s.subrange(0, end)), match_token(rest, s.subrange(end, s.len() as int)))
                } else {
                    None
                }
            },
        }
    } else if s.len() == 0 || p[0] != s[0] {
        None
    } else {
        match_token(p.drop_first(), s.drop_first())
    }
}

/// The captures of the first `n` token pairs, or `None` when one of them fails.
pub open spec fn match_tokens(pt: Seq<Seq<char>>, it: Seq<Seq<char>>, n: int) -> Option<Seq<Capture>>
    decreases n,
{
    if n <= 0 {
        Some(Seq::empty())
    } else {
        match match_tokens(pt, it, n - 1) {
            None => None,
            Some(before) => {
                let p = pt[n - 1];
                let s = it[n - 1];
                if p.contains('{') {
                    match match_token(p, s) {
                        Some(c) => Some(before + c),
                        None => None,
                    }
                } else if p == s {
                    Some(before)
                } else {
                    None
                }
            },
        }
    }
}

/// What `match_pattern` computes on the token lists of pattern and input.
pub open spec fn pattern_captures(pt: Seq<Seq<char>>, it: Seq<Seq<char>>) -> Option<Seq<Capture>> {
    if pt.len() != it.len() {
        None
    } else {
        match_tokens(pt, it, pt.len() as int)
    }
}

/// The value bound to `key`; a later capture of the same name wins.
pub open spec fn lookup(caps: Seq<Capture>, key: Seq<char>) -> Option<Seq<char>>
    decreases caps.len(),
{
    if caps.len() == 0 {
        None
    } else if caps.last().0 == key {
        Some(caps.last().1)
    } else {
        lookup(caps.drop_last(), key)
    }
}

/// `t` with every `{key}` whose key is bound replaced by its value; other text is kept.
pub open spec fn expand(t: Seq<char>, caps: Seq<Capture>) -> Seq<char>
    decreases t.len(),
{
    if t.len() == 0 {
        Seq::empty()
    } else if t[0] == '{' && index_of(t.drop_first(), '}') is Some && lookup(
        caps,
        t.subrange(1, index_of(t.drop_first(), '}')->0 + 1),
    ) is Some {
        let k = index_of(t.drop_first(), '}')->0;
        if 0 <= k && k + 2 <= t.len() {
            lookup(caps, t.subrange(1, k + 1))->0 + expand(t.subrange(k + 2, t.len() as int), caps)
        } else {
            Seq::empty()
        }
    } else {
        seq![t[0]] + expand(t.drop_first(), caps)
    }
}

fn lead_byte_of(c: char) -> (r: u32)
    ensures
        r == lead_byte(c),
{
    let u = c as u32;
    if u < 0x80 {
        u
    } else if u < 0x800 {
        0xC0 + u / 64
    } else if u < 0x10000 {
        0xE0 + u / 4096
    } else {
        0xF0 + u / 262144
    }
}

proof fn lemma_capture_end_bounds(s: Seq<char>, b: int)
    ensures
        0 <= capture_end(s, b) <= s.len(),
    decreases s.len(),
{
    if s.len() > 0 {
        lemma_capture_end_bounds(s.drop_first(), b);
    }
}

/// Position at or after `from` where the capture ends.
fn find_capture_end(v: &Vec<char>, from: usize, b: u32) -> (r: usize)
    requires
        from <= v@.len(),
    ensures
        r == from + capture_end(v@.subrange(from as int, v@.len() as int), b as int),
        from <= r <= v@.len(),
{
    let mut k: usize = from;
    while k < v.len()
        invariant
            from <= k <= v@.len(),
            capture_end(v@.subrange(from as int, v@.len() as int), b as int) == (k - from)
                + capture_end(v@.subrange(k as int, v@.len() as int), b as int),
        decreases v@.len() - k,
    {
        let ghost sub = v@.subrange(k as int, v@.len() as int);
        if lead_byte_of(v[k]) == b {
            return k;
        }
        assert(sub.drop_first() =~= v@.subrange(k + 1, v@.len() as int));
        k = k + 1;
    }
    k
}

/// Matches one token pair; on success appends the captures to `caps`.
fn match_token_exec(pat: &str, inp: &str, caps: &mut Vec<(String, String)>) -> (ok: bool)
    ensures
        ok == (match_token(pat@, inp@) is Some),
        ok ==> captures_view(final(caps)@) == captures_view(old(caps)@) + match_token(
            pat@,
            inp@,
        )->0,
{
    let p = chars_of(pat);
    let s = chars_of(inp);
    let ghost start = captures_view(caps@);
    let mut pi: usize = 0;
    let mut ii: usize = 0;
    proof {
        assert(p@.subrange(0, p@.len() as int) =~= p@);
        assert(s@.subrange(0, s@.len() as int) =~= s@);
        let cv = captures_view(caps@);
        assert(cv.subrange(0, start.len() as int) =~= start);
        if let Some(r) = match_token(pat@, inp@) {
            assert(cv.subrange(start.len() as int, cv.len() as int) + r =~= r);
        }
    }
    while pi < p.len()
        invariant
            p@ == pat@,
            s@ == inp@,
            pi <= p@.len(),
            ii <= s@.len(),
            match_token(pat@, inp@) == (match match_token(
                p@.subrange(pi as int, p@.len() as int),
                s@.subrange(ii as int, s@.len() as int),
            ) {
                Some(r) => Some(captures_view(caps@).subrange(start.len() as int, captures_view(caps@).len() as int) + r),
                None => None,
            }),
            captures_view(caps@).len() >= start.len(),
            captures_view(caps@).subrange(0, start.len() as int) == start,
        decreases p@.len() - pi,
    {
        let ghost ps = p@.subrange(pi as int, p@.len() as int);
        let ghost ss = s@.subrange(ii as int, s@.len() as int);
        let ghost done = captures_view(caps@).subrange(start.len() as int, captures_view(caps@).len() as int);
        if p[pi] == '{' {
            let close = find_char(&p, pi + 1, '}');
            assert(ps.drop_first() =~= p@.subrange(pi + 1, p@.len() as int));
            match close {
                None => {
                    return false;
                },
                Some(j) => {
                    let ghost k = j - pi - 1;
                    proof {
                        lemma_index_of_bounds(ps.drop_first(), '}');
                    }
                    let next = j + 1;
                    let end = if next < p.len() {
                        find_capture_end(&s, ii, lead_byte_of(p[next]))
                    } else {
                        s.len()
                    };
                    let ghost rest = ps.subrange(k + 2, ps.len() as int);
                    assert(rest =~= p@.subrange(next as int, p@.len() as int));
                    if end <= ii {
                        return false;
                    }
                    let name = substring(pat, pi + 1, j);
                    let value = substring(inp, ii, end);
                    assert(name@ =~= ps.subrange(1, k + 1));
                    assert(value@ =~= ss.subrange(0, end - ii));
                    assert(ss.subrange(end - ii, ss.len() as int) =~= s@.subrange(end as int, s@.len() as int));
                    caps.push((name, value));
                    proof {
                        let cv = captures_view(caps@);
                        let cv0 = captures_view(old(caps)@);
                        assert(cv.subrange(0, start.len() as int) =~= start);
                        assert(cv.subrange(start.len() as int, cv.len() as int) =~= done + seq![(name@, value@)]);
                    }
                    pi = next;
                    ii = end;
                },
            }
        } else {
            if ii >= s.len() || p[pi] != s[ii] {
                return false;
            }
            assert(ps.drop_first() =~= p@.subrange(pi + 1, p@.len() as int));
            assert(ss.drop_first() =~= s@.subrange(ii + 1, s@.len() as int));
            pi = pi + 1;
            ii = ii + 1;
        }
    }
    proof {
        let cv = captures_view(caps@);
        assert(cv =~= start + cv.subrange(start.len() as int, cv.len() as int));
    }
    ii == s.len()
}

proof fn lemma_match_tokens_fail(pt: Seq<Seq<char>>, it: Seq<Seq<char>>, i: int, n: int)
    requires
        0 <= i <= n,
        match_tokens(pt, it, i) is None,
    ensures
        match_tokens(pt, it, n) is None,
    decreases n - i,
{
    if i < n {
        lemma_match_tokens_fail(pt, it, i + 1, n);
    }
}

/// Matches `input` against `pattern` token by token. Returns the captures, in the
/// order of their placeholders, or `None` when the input does not fit the pattern.
pub fn match_pattern(pattern: &str, input: &str) -> (r: Option<Vec<(String, String)>>)
    ensures
        (r is Some) <==> (pattern_captures(whitespace_tokens(pattern@), whitespace_tokens(input@)) is Some),
        r matches Some(c) ==> captures_view(c@) == pattern_captures(
            whitespace_tokens(pattern@),
            whitespace_tokens(input@),
        )->0,
{
    let pattern_parts = split_whitespace_owned(pattern);
    let input_parts = split_whitespace_owned(input);
    let ghost pt = whitespace_tokens(pattern@);
    let ghost it = whitespace_tokens(input@);
    if pattern_parts.len() != input_parts.len() {
        return None;
    }
    let mut captures: Vec<(String, String)> = Vec::new();
    let mut i: usize = 0;
    while i < pattern_parts.len()
        invariant
            pt == whitespace_tokens(pattern@),
            it == whitespace_tokens(input@),
            strings_view(pattern_parts@) == pt,
            strings_view(input_parts@) == it,
            pattern_parts@.len() == input_parts@.len(),
            pt.len() == pattern_parts@.len(),
            it.len() == input_parts@.len(),
            i <= pattern_parts@.len(),
            match_tokens(pt, it, i as int) == Some(captures_view(captures@)),
        decreases pattern_parts@.len() - i,
    {
        let pat = &pattern_parts[i];
        let inp = &input_parts[i];
        assert(pt[i as int] == pat@);
        assert(it[i as int] == inp@);
        if str_contains_char(pat.as_str(), '{') {
            let ok = match_token_exec(pat.as_str(), inp.as_str(), &mut captures);
            if !ok {
                proof {
                    assert(match_tokens(pt, it, i + 1) is None);
                    lemma_match_tokens_fail(pt, it, i + 1, pt.len() as int);
                    assert(pattern_captures(pt, it) is None);
                }
                return None;
            }
        } else {
            if !pat.eq(inp) {
                proof {
                    assert(match_tokens(pt, it, i + 1) is None);
                    lemma_match_tokens_fail(pt, it, i + 1, pt.len() as int);
                    assert(pattern_captures(pt, it) is None);
                }
                return None;
            }
        }
        i = i + 1;
    }
    Some(captures)
}

/// Position of the binding of `key` that `lookup` returns.
fn find_capture(caps: &Vec<(String, String)>, key: &String) -> (r: Option<usize>)
    ensures
        r matches Some(j) ==> j < caps@.len() && lookup(captures_view(caps@), key@) == Some(
            caps@[j as int].1@,
        ),
        r is None ==> lookup(captures_view(caps@), key@) is None,
{
    let ghost cv = captures_view(caps@);
    let mut n: usize = caps.len();
    assert(cv.subrange(0, n as int) =~= cv);
    while n > 0
        invariant
            n <= caps@.len(),
            cv == captures_view(caps@),
            lookup(cv, key@) == lookup(cv.subrange(0, n as int), key@),
        decreases n,
    {
        let ghost sub = cv.subrange(0, n as int);
        if caps[n - 1].0.eq(key) {
            assert(sub.last() == cv[n - 1]);
            return Some(n - 1);
        }
        assert(sub.drop_last() =~= cv.subrange(0, n - 1));
        n = n - 1;
    }
    None
}

/// Replaces every `{key}` of `template` whose key is captured by the captured text.
/// A later capture of the same name wins; placeholders without a capture are kept.
pub fn expand_template(template: &str, captures: &Vec<(String, String)>) -> (r: String)
    ensures
        r@ == expand(template@, captures_view(captures@)),
{
    let t = chars_of(template);
    let ghost tv = t@;
    let ghost cv = captures_view(captures@);
    let mut result = String::new();
    let mut i: usize = 0;
    let mut last_end: usize = 0;
    proof {
        assert(tv.subrange(0, tv.len() as int) =~= tv);
        assert(result@ + tv.subrange(0, 0) + expand(tv, cv) =~= expand(tv, cv));
    }
    while i < t.len()
        invariant
            tv == template@,
            t@ == tv,
            cv == captures_view(captures@),
            last_end <= i <= tv.len(),
            expand(tv, cv) == result@ + tv.subrange(last_end as int, i as int) + expand(
                tv.subrange(i as int, tv.len() as int),
                cv,
            ),
        decreases tv.len() - i,
    {
        let ghost rest = tv.subrange(i as int, tv.len() as int);
        assert(rest.drop_first() =~= tv.subrange(i + 1, tv.len() as int));
        let mut replaced = false;
        if t[i] == '{' {
            if let Some(j) = find_char(&t, i + 1, '}') {
                proof {
                    lemma_index_of_bounds(rest.drop_first(), '}');
                }
                let key = substring(template, i + 1, j);
                assert(key@ =~= rest.subrange(1, j - i));
                if let Some(c) = find_capture(captures, &key) {
                    let piece = substring(template, last_end, i);
                    result.append(piece.as_str());
                    result.append(captures[c].1.as_str());
                    proof {
                        assert(rest.subrange(j - i + 1, rest.len() as int) =~= tv.subrange(
                            j + 1,
                            tv.len() as int,
                        ));
                        assert(tv.subrange(j + 1, j + 1) =~= Seq::<char>::empty());
                    }
                    i = j + 1;
                    last_end = i;
                    replaced = true;
                    proof {
                        let e = expand(tv.subrange(i as int, tv.len() as int), cv);
                        assert(result@ + tv.subrange(last_end as int, i as int) + e =~= result@ + e);
                    }
                }
            }
        }
        if !replaced {
            proof {
                assert(tv.subrange(last_end as int, i + 1) =~= tv.subrange(last_end as int, i as int)
                    + seq![tv[i as int]]);
            }
            i = i + 1;
        }
    }
    let tail = substring(template, last_end, i);
    result.append(tail.as_str());
    proof {
        assert(tv.subrange(i as int, tv.len() as int) =~= Seq::<char>::empty());
    }
    result
}

/// The result of a matched pattern action, as `create_result` builds it.
pub open spec fn pattern_result(
    action_id: Seq<char>,
    pattern: Seq<char>,
    action: PatternActionView,
    caps: Seq<Capture>,
    icon: Seq<char>,
) -> ActionResultView {
    let title = expand(pattern, caps);
    let ra = match action {
        PatternActionView::OpenUrl(u) => ResultActionView::OpenUrl(expand(u, caps)),
        PatternActionView::CopyText(t) => ResultActionView::CopyText(expand(t, caps)),
        PatternActionView::RunCommand { cmd, args } => ResultActionView::RunCommand {
            cmd: expand(cmd, caps),
            args: args.map_values(|a: Seq<char>| expand(a, caps)),
        },
    };
    ActionResultView {
        id: action_id + ":"@ + title,
        title,
        subtitle: result_subtitle(ra),
        icon,
        icon_path: None,
        score: 95,
        action: ra,
        quicklook: None,
    }
}

/// The strings of `v` joined by single spaces.
pub open spec fn join_spaces(v: Seq<Seq<char>>) -> Seq<char>
    decreases v.len(),
{
    if v.len() == 0 {
        Seq::empty()
    } else if v.len() == 1 {
        v[0]
    } else {
        join_spaces(v.drop_last()) + " "@ + v.last()
    }
}

/// How a result describes its action: the URL, `Copy: text`, or `Run: cmd args`.
pub open spec fn result_subtitle(a: ResultActionView) -> Seq<char> {
    match a {
        ResultActionView::OpenUrl(u) => u,
        ResultActionView::CopyText(t) => "Copy: "@ + t,
        ResultActionView::RunCommand { cmd, args } => "Run: "@ + cmd + " "@ + join_spaces(args),
    }
}

fn join_with_spaces(v: &Vec<String>) -> (r: String)
    ensures
        r@ == join_spaces(strings_view(v@)),
{
    let mut r = String::new();
    let mut i: usize = 0;
    while i < v.len()
        invariant
            i <= v@.len(),
            r@ == join_spaces(strings_view(v@.subrange(0, i as int))),
        decreases v@.len() - i,
    {
        let ghost before = strings_view(v@.subrange(0, i as int));
        if i > 0 {
            r.append(" ");
        }
        r.append(v[i].as_str());
        proof {
            reveal_strlit(" ");
            let now = strings_view(v@.subrange(0, i + 1));
            assert(now.drop_last() =~= before);
            if i == 0 {
                assert(r@ =~= now[0]);
            }
        }
        i = i + 1;
    }
    assert(v@.subrange(0, v@.len() as int) =~= v@);
    r
}

/// The subtitle that describes `action`.
pub fn describe_action(action: &ResultAction) -> (r: String)
    ensures
        r@ == result_subtitle(action@),
{
    match action {
        ResultAction::OpenUrl(u) => u.clone(),
        ResultAction::CopyText(t) => {
            let s = String::from_str("Copy: ");
            s.concat(t.as_str())
        },
        ResultAction::RunCommand { cmd, args } => {
            let s = String::from_str("Run: ");
            let s = s.concat(cmd.as_str());
            let s = s.concat(" ");
            let joined = join_with_spaces(args);
            s.concat(joined.as_str())
        },
    }
}

/// The result row of a matched pattern action: the title is the expanded pattern,
/// the action's templates are expanded, and the score is 95.
pub fn create_result(
    action_id: &str,
    action_name: &str,
    pattern: &str,
    action_type: &PatternActionType,
    captures: &Vec<(String, String)>,
    icon: &str,
) -> (r: ActionResult)
    ensures
        r@ == pattern_result(action_id@, pattern@, action_type@, captures_view(captures@), icon@),
{
    let title = expand_template(pattern, captures);
    let result_action = match action_type {
        PatternActionType::OpenUrl(url) => ResultAction::OpenUrl(expand_template(url.as_str(), captures)),
        PatternActionType::CopyText(text) => ResultAction::CopyText(
            expand_template(text.as_str(), captures),
        ),
        PatternActionType::RunCommand { cmd, args } => {
            let expanded_cmd = expand_template(cmd.as_str(), captures);
            let mut expanded_args: Vec<String> = Vec::new();
            let mut i: usize = 0;
            while i < args.len()
                invariant
                    i <= args@.len(),
                    expanded_args@.len() == i,
                    forall|j: int|
                        0 <= j < i ==> expanded_args@[j]@ == expand(
                            args@[j]@,
                            captures_view(captures@),
                        ),
                decreases args@.len() - i,
            {
                expanded_args.push(expand_template(args[i].as_str(), captures));
                i = i + 1;
            }
            assert(strings_view(expanded_args@) =~= strings_view(args@).map_values(
                |a: Seq<char>| expand(a, captures_view(captures@)),
            ));
            ResultAction::RunCommand { cmd: expanded_cmd, args: expanded_args }
        },
    };
    let subtitle = describe_action(&result_action);
    let id = String::from_str(action_id).concat(":").concat(title.as_str());
    ActionResult::new(id, title, subtitle, String::from_str(icon), 95, result_action)
}

/// No capture name occurs twice.
pub open spec fn distinct_names(c: Seq<Capture>) -> bool {
    forall|i: int, j: int| 0 <= i < j < c.len() ==> c[i].0 != c[j].0
}

/// Every capture of `c` is what `caps` binds its name to.
pub open spec fn bound_in(c: Seq<Capture>, caps: Seq<Capture>) -> bool {
    forall|j: int| 0 <= j < c.len() ==> lookup(caps, #[trigger] c[j].0) == Some(c[j].1)
}

proof fn lemma_lookup_distinct(caps: Seq<Capture>)
    requires
        distinct_names(caps),
    ensures
        bound_in(caps, caps),
    decreases caps.len(),
{
    if caps.len() > 0 {
        let init = caps.drop_last();
        lemma_lookup_distinct(init);
        assert forall|j: int| 0 <= j < caps.len() implies lookup(caps, #[trigger] caps[j].0) == Some(
            caps[j].1,
        ) by {
            if j < caps.len() - 1 {
                assert(init[j] == caps[j]);
                assert(caps.last().0 != caps[j].0);
            }
        }
    }
}

proof fn lemma_expand_plain(t: Seq<char>, caps: Seq<Capture>)
    requires
        !t.contains('{'),
    ensures
        expand(t, caps) == t,
    decreases t.len(),
{
    if t.len() > 0 {
        assert(t[0] != '{');
        assert(!t.drop_first().contains('{')) by {
            if t.drop_first().contains('{') {
                let j = choose|j: int| 0 <= j < t.drop_first().len() && t.drop_first()[j] == '{';
                assert(t[j + 1] == '{');
            }
        }
        lemma_expand_plain(t.drop_first(), caps);
        assert(seq![t[0]] + t.drop_first() =~= t);
    }
}

proof fn lemma_expand_token(p: Seq<char>, s: Seq<char>, caps: Seq<Capture>)
    requires
        match_token(p, s) is Some,
        bound_in(match_token(p, s)->0, caps),
    ensures
        expand(p, caps) == s,
    decreases p.len(),
{
    let c = match_token(p, s)->0;
    if p.len() == 0 {
        assert(s =~= Seq::<char>::empty());
    } else if p[0] == '{' {
        let k = index_of(p.drop_first(), '}')->0;
        let name = p.subrange(1, k + 1);
        let rest = p.subrange(k + 2, p.len() as int);
        let end = if rest.len() > 0 {
            capture_end(s, lead_byte(rest[0]))
        } else {
            s.len() as int
        };
        lemma_capture_end_bounds(s, if rest.len() > 0 { lead_byte(rest[0]) } else { 0 });
        let r = match_token(rest, s.subrange(end, s.len() as int))->0;
        assert(c == seq![(name, s.subrange(0, end))] + r);
        assert(c[0] == (name, s.subrange(0, end)));
        assert(lookup(caps, c[0].0) == Some(c[0].1));
        assert(bound_in(r, caps)) by {
            assert forall|j: int| 0 <= j < r.len() implies lookup(caps, #[trigger] r[j].0) == Some(
                r[j].1,
            ) by {
                assert(c[j + 1] == r[j]);
            }
        }
        lemma_expand_token(rest, s.subrange(end, s.len() as int), caps);
        assert(s.subrange(0, end) + s.subrange(end, s.len() as int) =~= s);
    } else {
        lemma_expand_token(p.drop_first(), s.drop_first(), caps);
        assert(seq![s[0]] + s.drop_first() =~= s);
    }
}

proof fn lemma_expand_tokens(pt: Seq<Seq<char>>, it: Seq<Seq<char>>, n: int, caps: Seq<Capture>)
    requires
        0 <= n <= pt.len(),
        n <= it.len(),
        match_tokens(pt, it, n) is Some,
        bound_in(match_tokens(pt, it, n)->0, caps),
    ensures
        forall|i: int| 0 <= i < n ==> expand(#[trigger] pt[i], caps) == it[i],
    decreases n,
{
    if n > 0 {
        let before = match_tokens(pt, it, n - 1)->0;
        let all = match_tokens(pt, it, n)->0;
        let p = pt[n - 1];
        let s = it[n - 1];
        if p.contains('{') {
            let c = match_token(p, s)->0;
            assert(all == before + c);
            assert(bound_in(before, caps)) by {
                assert forall|j: int| 0 <= j < before.len() implies lookup(
                    caps,
                    #[trigger] before[j].0,
                ) == Some(before[j].1) by {
                    assert(all[j] == before[j]);
                }
            }
            assert(bound_in(c, caps)) by {
                assert forall|j: int| 0 <= j < c.len() implies lookup(caps, #[trigger] c[j].0) == Some(
                    c[j].1,
                ) by {
                    assert(all[before.len() + j] == c[j]);
                }
            }
            lemma_expand_token(p, s, caps);
        } else {
            lemma_expand_plain(p, caps);
        }
        lemma_expand_tokens(pt, it, n - 1, caps);
    }
}

/// A successful match can be undone: when the capture names are distinct, expanding
/// each pattern token with the captures gives back the input token, so the expanded
/// pattern equals the input up to the whitespace between tokens.
pub proof fn lemma_match_then_expand(pattern: Seq<char>, input: Seq<char>)
    requires
        pattern_captures(whitespace_tokens(pattern), whitespace_tokens(input)) is Some,
        distinct_names(pattern_captures(whitespace_tokens(pattern), whitespace_tokens(input))->0),
    ensures
        whitespace_tokens(pattern).len() == whitespace_tokens(input).len(),
        forall|i: int|
            0 <= i < whitespace_tokens(pattern).len() ==> expand(
                #[trigger] whitespace_tokens(pattern)[i],
                pattern_captures(whitespace_tokens(pattern), whitespace_tokens(input))->0,
            ) == whitespace_tokens(input)[i],
        whitespace_tokens(pattern).map_values(
            |t: Seq<char>|
                expand(t, pattern_captures(whitespace_tokens(pattern), whitespace_tokens(input))->0),
        ) == whitespace_tokens(input),
{
    let pt = whitespace_tokens(pattern);
    let it = whitespace_tokens(input);
    let caps = pattern_captures(pt, it)->0;
    lemma_lookup_distinct(caps);
    lemma_expand_tokens(pt, it, pt.len() as int, caps);
    assert(pt.map_values(|t: Seq<char>| expand(t, caps)) =~= it);
}

} // verus!
