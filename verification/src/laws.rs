//! Line-level laws of the parser: a line assembled from well-shaped
//! fields parses to exactly the record of its field values; writing `-`
//! in any field's position makes that field absent and nothing else;
//! whitespace-led text trailing the size field is ignored.

use vstd::prelude::*;
use crate::entry::{spec_parse, LogEntryView};
use crate::error::LogEntryParseError;
use crate::ip::{spec_parse_ip, IpAddr};
use crate::numbers::spec_parse_usize;
use crate::peel::{
    spec_peel_ip, spec_peel_quoted_string, spec_peel_status_code, spec_peel_string,
    spec_peel_timestamp, spec_peel_usize, spec_token_split,
};
use crate::status::{valid_status, StatusCode};
use crate::text::{
    find_at, is_clf_space, lemma_find_at_concat, lemma_strip_spaces_concat,
    lemma_token_end_concat, strip_spaces, token_end,
};
use crate::timestamp::{spec_rfc3339_ts, Timestamp};

verus! {

/// Field-separating text: at least one whitespace character.
pub open spec fn sep_text(g: Seq<char>) -> bool {
    g.len() > 0 && (forall|i: int| 0 <= i < g.len() ==> is_clf_space(g[i]))
}

/// The raw text of a whitespace-bounded field: non-empty and free of
/// whitespace.
pub open spec fn bare_field(t: Seq<char>) -> bool {
    t.len() > 0 && (forall|i: int| 0 <= i < t.len() ==> !is_clf_space(t[i]))
}

/// A host field: absent, or a token the IP grammar accepts.
pub open spec fn host_field(t: Seq<char>) -> bool {
    bare_field(t) && (t[0] == '-' || spec_parse_ip(t) is Some)
}

/// An ident or authuser field: any bare token.
pub open spec fn token_field(t: Seq<char>) -> bool {
    bare_field(t)
}

/// A time field: exactly `-`, or a bracketed span whose content is
/// RFC 3339 text.
pub open spec fn time_field(t: Seq<char>) -> bool {
    t == seq!['-'] || (t.len() >= 2 && t[0] == '[' && t[t.len() - 1] == ']' && (forall|i: int|
        1 <= i < t.len() - 1 ==> t[i] != ']') && spec_rfc3339_ts(t.subrange(1, t.len() - 1))
        is Some)
}

/// A request-line field: exactly `-`, or a quoted span.
pub open spec fn quoted_field(t: Seq<char>) -> bool {
    t == seq!['-'] || (t.len() >= 2 && t[0] == '"' && t[t.len() - 1] == '"' && (forall|i: int|
        1 <= i < t.len() - 1 ==> t[i] != '"'))
}

/// A status field: absent, or an integer in the valid HTTP range.
pub open spec fn status_field(t: Seq<char>) -> bool {
    bare_field(t) && (t[0] == '-' || (spec_parse_usize(t) matches Some(v) && valid_status(
        v as int,
    )))
}

/// A size field: absent, or a non-negative integer.
pub open spec fn size_field(t: Seq<char>) -> bool {
    bare_field(t) && (t[0] == '-' || spec_parse_usize(t) is Some)
}

/// The value a bare text field carries.
pub open spec fn bare_value(t: Seq<char>) -> Option<Seq<char>> {
    if t[0] == '-' {
        None
    } else {
        Some(t)
    }
}

pub open spec fn host_value(t: Seq<char>) -> Option<IpAddr> {
    if t[0] == '-' {
        None
    } else {
        spec_parse_ip(t)
    }
}

pub open spec fn time_value(t: Seq<char>) -> Option<Timestamp> {
    if t == seq!['-'] {
        None
    } else {
        spec_rfc3339_ts(t.subrange(1, t.len() - 1))
    }
}

pub open spec fn quoted_value(t: Seq<char>) -> Option<Seq<char>> {
    if t == seq!['-'] {
        None
    } else {
        Some(t.subrange(1, t.len() - 1))
    }
}

pub open spec fn status_value(t: Seq<char>) -> Option<StatusCode> {
    if t[0] == '-' {
        None
    } else {
        match spec_parse_usize(t) {
            Some(v) => Some(StatusCode { code: v as u16 }),
            None => None,
        }
    }
}

pub open spec fn size_value(t: Seq<char>) -> Option<usize> {
    if t[0] == '-' {
        None
    } else {
        spec_parse_usize(t)
    }
}

/// The record that a line assembled from these fields denotes.
pub open spec fn fields_record(
    f0: Seq<char>,
    f1: Seq<char>,
    f2: Seq<char>,
    f3: Seq<char>,
    f4: Seq<char>,
    f5: Seq<char>,
    f6: Seq<char>,
) -> LogEntryView {
    LogEntryView {
        host: host_value(f0),
        ident: bare_value(f1),
        authuser: bare_value(f2),
        time: time_value(f3),
        request_line: quoted_value(f4),
        status_code: status_value(f5),
        object_size: size_value(f6),
    }
}

/// Splitting a bare token off text that continues with whitespace
/// leaves exactly the stripped continuation.
proof fn lemma_token_split_concat(t: Seq<char>, tail: Seq<char>)
    requires
        bare_field(t),
        tail.len() == 0 || is_clf_space(tail[0]),
    ensures
        spec_token_split(t + tail) == (t, strip_spaces(tail)),
{
    lemma_token_end_concat(t, tail);
    assert(token_end(tail) == 0);
    assert((t + tail).take(t.len() as int) =~= t);
    assert((t + tail).skip(t.len() as int) =~= tail);
}

/// One bare-field step of the chain: the token is the field text and
/// the remainder is the next suffix.
proof fn lemma_step_token(f: Seq<char>, g: Seq<char>, s_next: Seq<char>)
    requires
        bare_field(f),
        sep_text(g),
        s_next.len() > 0,
        !is_clf_space(s_next[0]),
    ensures
        spec_token_split(f + (g + s_next)) == (f, s_next),
{
    let tail = g + s_next;
    assert(tail[0] == g[0]);
    lemma_token_split_concat(f, tail);
    lemma_strip_spaces_concat(g, s_next);
}

/// One time-field step of the chain.
proof fn lemma_step_time(f: Seq<char>, g: Seq<char>, s_next: Seq<char>)
    requires
        time_field(f),
        sep_text(g),
        s_next.len() > 0,
        !is_clf_space(s_next[0]),
    ensures
        spec_peel_timestamp(f + (g + s_next)) == Ok::<
            (Option<Timestamp>, Seq<char>),
            LogEntryParseError,
        >((time_value(f), s_next)),
{
    let tail = g + s_next;
    let s = f + tail;
    lemma_strip_spaces_concat(g, s_next);
    if f == seq!['-'] {
        assert(s[0] == '-');
        assert(s.skip(1) =~= tail);
    } else {
        let m = f.len() as int;
        assert(s[0] == f[0]);
        let pre = f.take(m - 1);
        assert(pre + (seq![']'] + tail) =~= s);
        assert forall|j: int| 0 <= j < pre.len() implies pre[j] != ']' by {
            assert(pre[j] == f[j]);
        }
        lemma_find_at_concat(pre, seq![']'] + tail, ']');
        assert((seq![']'] + tail)[0] == ']');
        assert(find_at(seq![']'] + tail, ']') == 0);
        assert(find_at(s, ']') == m - 1);
        assert(s.subrange(1, m - 1) =~= f.subrange(1, m - 1));
        assert(s.skip(m) =~= tail);
    }
}

/// One request-line step of the chain.
proof fn lemma_step_quoted(f: Seq<char>, g: Seq<char>, s_next: Seq<char>)
    requires
        quoted_field(f),
        sep_text(g),
        s_next.len() > 0,
        !is_clf_space(s_next[0]),
    ensures
        spec_peel_quoted_string(f + (g + s_next)) == Ok::<
            (Option<Seq<char>>, Seq<char>),
            LogEntryParseError,
        >((quoted_value(f), s_next)),
{
    let tail = g + s_next;
    let s = f + tail;
    lemma_strip_spaces_concat(g, s_next);
    if f == seq!['-'] {
        assert(s[0] == '-');
        assert(s.skip(1) =~= tail);
    } else {
        let m = f.len() as int;
        assert(s[0] == f[0]);
        let rest = s.skip(1);
        let inner = f.subrange(1, m - 1);
        assert(inner + (seq!['"'] + tail) =~= rest);
        assert forall|j: int| 0 <= j < inner.len() implies inner[j] != '"' by {
            assert(inner[j] == f[j + 1]);
        }
        lemma_find_at_concat(inner, seq!['"'] + tail, '"');
        assert((seq!['"'] + tail)[0] == '"');
        assert(find_at(seq!['"'] + tail, '"') == 0);
        assert(find_at(rest, '"') == m - 2);
        assert(rest.take(m - 2) =~= inner);
        assert(rest.skip(m - 1) =~= tail);
    }
}

/// A line assembled from seven well-shaped fields and whitespace
/// separators parses to exactly the record of its field values, for any
/// whitespace-led trail after the size field.
pub proof fn lemma_parse_structured(
    f0: Seq<char>,
    g1: Seq<char>,
    f1: Seq<char>,
    g2: Seq<char>,
    f2: Seq<char>,
    g3: Seq<char>,
    f3: Seq<char>,
    g4: Seq<char>,
    f4: Seq<char>,
    g5: Seq<char>,
    f5: Seq<char>,
    g6: Seq<char>,
    f6: Seq<char>,
    trail: Seq<char>,
)
    requires
        host_field(f0),
        token_field(f1),
        token_field(f2),
        time_field(f3),
        quoted_field(f4),
        status_field(f5),
        size_field(f6),
        sep_text(g1),
        sep_text(g2),
        sep_text(g3),
        sep_text(g4),
        sep_text(g5),
        sep_text(g6),
        trail.len() == 0 || is_clf_space(trail[0]),
    ensures
        ({
            let s6 = f6 + trail;
            let s5 = f5 + (g6 + s6);
            let s4 = f4 + (g5 + s5);
            let s3 = f3 + (g4 + s4);
            let s2 = f2 + (g3 + s3);
            let s1 = f1 + (g2 + s2);
            let s0 = f0 + (g1 + s1);
            spec_parse(s0) == Ok::<LogEntryView, LogEntryParseError>(
                fields_record(f0, f1, f2, f3, f4, f5, f6),
            )
        }),
{
    let s6 = f6 + trail;
    let s5 = f5 + (g6 + s6);
    let s4 = f4 + (g5 + s5);
    let s3 = f3 + (g4 + s4);
    let s2 = f2 + (g3 + s3);
    let s1 = f1 + (g2 + s2);
    let s0 = f0 + (g1 + s1);
    assert(s6[0] == f6[0] && !is_clf_space(s6[0]));
    assert(s5[0] == f5[0] && !is_clf_space(s5[0]));
    assert(s4[0] == f4[0]);
    assert(s3[0] == f3[0]);
    assert(s2[0] == f2[0] && !is_clf_space(s2[0]));
    assert(s1[0] == f1[0] && !is_clf_space(s1[0]));
    assert(s0[0] == f0[0]);
    assert(f4 == seq!['-'] || f4[0] == '"');
    assert(!is_clf_space(s4[0]));
    assert(f3 == seq!['-'] || f3[0] == '[');
    assert(!is_clf_space(s3[0]));

    lemma_step_token(f0, g1, s1);
    assert(spec_peel_ip(s0) == Ok::<(Option<IpAddr>, Seq<char>), LogEntryParseError>(
        (host_value(f0), s1),
    ));

    lemma_step_token(f1, g2, s2);
    assert(spec_peel_string(s1) == Ok::<(Option<Seq<char>>, Seq<char>), LogEntryParseError>(
        (bare_value(f1), s2),
    ));

    lemma_step_token(f2, g3, s3);
    assert(spec_peel_string(s2) == Ok::<(Option<Seq<char>>, Seq<char>), LogEntryParseError>(
        (bare_value(f2), s3),
    ));

    lemma_step_time(f3, g4, s4);

    lemma_step_quoted(f4, g5, s5);

    lemma_step_token(f5, g6, s6);
    assert(spec_peel_status_code(s5) == Ok::<
        (Option<StatusCode>, Seq<char>),
        LogEntryParseError,
    >((status_value(f5), s6)));

    lemma_token_split_concat(f6, trail);
    assert(spec_peel_usize(s6) == Ok::<(Option<usize>, Seq<char>), LogEntryParseError>(
        (size_value(f6), strip_spaces(trail)),
    ));
}

/// The text standing in field `j`'s position when field `k` of a line
/// is replaced by the absent marker.
pub open spec fn subst(t: Seq<char>, j: int, k: int) -> Seq<char> {
    if j == k {
        seq!['-']
    } else {
        t
    }
}

/// Writing `-` in the position of field `k`, in place of a present
/// value, yields a line that parses to the same record with exactly
/// that field absent, provided the surrounding fields and spacing are
/// well-shaped.
pub proof fn lemma_absent_field_substitution(
    f0: Seq<char>,
    g1: Seq<char>,
    f1: Seq<char>,
    g2: Seq<char>,
    f2: Seq<char>,
    g3: Seq<char>,
    f3: Seq<char>,
    g4: Seq<char>,
    f4: Seq<char>,
    g5: Seq<char>,
    f5: Seq<char>,
    g6: Seq<char>,
    f6: Seq<char>,
    k: int,
)
    requires
        host_field(f0),
        token_field(f1),
        token_field(f2),
        time_field(f3),
        quoted_field(f4),
        status_field(f5),
        size_field(f6),
        sep_text(g1),
        sep_text(g2),
        sep_text(g3),
        sep_text(g4),
        sep_text(g5),
        sep_text(g6),
        0 <= k <= 6,
    ensures
        ({
            let line1 = f0 + (g1 + (f1 + (g2 + (f2 + (g3 + (f3 + (g4 + (f4 + (g5 + (f5 + (g6
                + f6)))))))))));
            let line2 = subst(f0, 0, k) + (g1 + (subst(f1, 1, k) + (g2 + (subst(f2, 2, k) + (g3
                + (subst(f3, 3, k) + (g4 + (subst(f4, 4, k) + (g5 + (subst(f5, 5, k) + (g6
                + subst(f6, 6, k))))))))))));
            &&& spec_parse(line1) is Ok
            &&& spec_parse(line2) is Ok
            &&& k == 0 ==> spec_parse(line2)->Ok_0 == (LogEntryView {
                host: None,
                ..spec_parse(line1)->Ok_0
            })
            &&& k == 1 ==> spec_parse(line2)->Ok_0 == (LogEntryView {
                ident: None,
                ..spec_parse(line1)->Ok_0
            })
            &&& k == 2 ==> spec_parse(line2)->Ok_0 == (LogEntryView {
                authuser: None,
                ..spec_parse(line1)->Ok_0
            })
            &&& k == 3 ==> spec_parse(line2)->Ok_0 == (LogEntryView {
                time: None,
                ..spec_parse(line1)->Ok_0
            })
            &&& k == 4 ==> spec_parse(line2)->Ok_0 == (LogEntryView {
                request_line: None,
                ..spec_parse(line1)->Ok_0
            })
            &&& k == 5 ==> spec_parse(line2)->Ok_0 == (LogEntryView {
                status_code: None,
                ..spec_parse(line1)->Ok_0
            })
            &&& k == 6 ==> spec_parse(line2)->Ok_0 == (LogEntryView {
                object_size: None,
                ..spec_parse(line1)->Ok_0
            })
        }),
{
    let e = Seq::<char>::empty();
    assert(bare_field(seq!['-'])) by {
        assert(seq!['-'][0] == '-');
    }
    lemma_parse_structured(f0, g1, f1, g2, f2, g3, f3, g4, f4, g5, f5, g6, f6, e);
    lemma_parse_structured(
        subst(f0, 0, k),
        g1,
        subst(f1, 1, k),
        g2,
        subst(f2, 2, k),
        g3,
        subst(f3, 3, k),
        g4,
        subst(f4, 4, k),
        g5,
        subst(f5, 5, k),
        g6,
        subst(f6, 6, k),
        e,
    );
    assert(f6 + e =~= f6);
    assert(subst(f6, 6, k) + e =~= subst(f6, 6, k));
    let r1 = fields_record(f0, f1, f2, f3, f4, f5, f6);
    let r2 = fields_record(
        subst(f0, 0, k),
        subst(f1, 1, k),
        subst(f2, 2, k),
        subst(f3, 3, k),
        subst(f4, 4, k),
        subst(f5, 5, k),
        subst(f6, 6, k),
    );
    if k == 0 {
        assert(r2 =~= (LogEntryView { host: None, ..r1 }));
    } else if k == 1 {
        assert(r2 =~= (LogEntryView { ident: None, ..r1 }));
    } else if k == 2 {
        assert(r2 =~= (LogEntryView { authuser: None, ..r1 }));
    } else if k == 3 {
        assert(r2 =~= (LogEntryView { time: None, ..r1 }));
    } else if k == 4 {
        assert(r2 =~= (LogEntryView { request_line: None, ..r1 }));
    } else if k == 5 {
        assert(r2 =~= (LogEntryView { status_code: None, ..r1 }));
    } else {
        assert(r2 =~= (LogEntryView { object_size: None, ..r1 }));
    }
}

/// Whitespace-led text trailing the size field is ignored: appending it
/// neither fails the parse nor changes the record.
#[verifier::rlimit(100)]
pub proof fn lemma_trailing_text_ignored(
    f0: Seq<char>,
    g1: Seq<char>,
    f1: Seq<char>,
    g2: Seq<char>,
    f2: Seq<char>,
    g3: Seq<char>,
    f3: Seq<char>,
    g4: Seq<char>,
    f4: Seq<char>,
    g5: Seq<char>,
    f5: Seq<char>,
    g6: Seq<char>,
    f6: Seq<char>,
    junk: Seq<char>,
)
    requires
        host_field(f0),
        token_field(f1),
        token_field(f2),
        time_field(f3),
        quoted_field(f4),
        status_field(f5),
        size_field(f6),
        sep_text(g1),
        sep_text(g2),
        sep_text(g3),
        sep_text(g4),
        sep_text(g5),
        sep_text(g6),
        junk.len() == 0 || is_clf_space(junk[0]),
    ensures
        ({
            let line1 = f0 + (g1 + (f1 + (g2 + (f2 + (g3 + (f3 + (g4 + (f4 + (g5 + (f5 + (g6
                + f6)))))))))));
            &&& spec_parse(line1) is Ok
            &&& spec_parse(line1 + junk) == spec_parse(line1)
        }),
{
    let e = Seq::<char>::empty();
    lemma_parse_structured(f0, g1, f1, g2, f2, g3, f3, g4, f4, g5, f5, g6, f6, e);
    lemma_parse_structured(f0, g1, f1, g2, f2, g3, f3, g4, f4, g5, f5, g6, f6, junk);
    assert(f6 + e =~= f6);
    let x12 = g6 + f6;
    let x11 = f5 + x12;
    let x10 = g5 + x11;
    let x9 = f4 + x10;
    let x8 = g4 + x9;
    let x7 = f3 + x8;
    let x6 = g3 + x7;
    let x5 = f2 + x6;
    let x4 = g2 + x5;
    let x3 = f1 + x4;
    let x2 = g1 + x3;
    assert(x12 + junk =~= g6 + (f6 + junk));
    assert(x11 + junk =~= f5 + (x12 + junk));
    assert(x10 + junk =~= g5 + (x11 + junk));
    assert(x9 + junk =~= f4 + (x10 + junk));
    assert(x8 + junk =~= g4 + (x9 + junk));
    assert(x7 + junk =~= f3 + (x8 + junk));
    assert(x6 + junk =~= g3 + (x7 + junk));
    assert(x5 + junk =~= f2 + (x6 + junk));
    assert(x4 + junk =~= g2 + (x5 + junk));
    assert(x3 + junk =~= f1 + (x4 + junk));
    assert(x2 + junk =~= g1 + (x3 + junk));
    assert((f0 + x2) + junk =~= f0 + (x2 + junk));
}

} // verus!
