//! A reader for the JSON the metadata encoders write: arrays of objects
//! whose members are all strings. It follows JSON's grammar for that part
//! of the language (no whitespace between tokens, the escapes `\"`, `\\`,
//! `\/`, `\b`, `\f`, `\n`, `\r`, `\t`, no raw control character inside a
//! string), and the laws here read the encoders' output back through it.
use vstd::prelude::*;

use crate::meta::{
    category_object, column_object, escape, escape_char, example_object, json_array, lemma_escape_front,
    task_object,
};

verus! {

/// The character a two-character escape `\c` stands for.
pub open spec fn unescaped(c: char) -> Option<char> {
    if c == '"' {
        Some('"')
    } else if c == '\\' {
        Some('\\')
    } else if c == '/' {
        Some('/')
    } else if c == 'b' {
        Some('\u{8}')
    } else if c == 'f' {
        Some('\u{c}')
    } else if c == 'n' {
        Some('\n')
    } else if c == 'r' {
        Some('\r')
    } else if c == 't' {
        Some('\t')
    } else {
        None
    }
}

/// Reads a string body up to and including its closing quote: the string
/// and the number of characters read.
pub open spec fn parse_body(t: Seq<char>) -> Option<(Seq<char>, int)>
    decreases t.len(),
{
    if t.len() == 0 {
        None
    } else if t[0] == '"' {
        Some((Seq::empty(), 1))
    } else if t[0] == '\\' {
        if t.len() < 2 {
            None
        } else {
            match unescaped(t[1]) {
                Some(x) => match parse_body(t.skip(2)) {
                    Some((v, n)) => Some((seq![x] + v, n + 2)),
                    None => None,
                },
                None => None,
            }
        }
    } else if (t[0] as u32) < 0x20 {
        None
    } else {
        match parse_body(t.skip(1)) {
            Some((v, n)) => Some((seq![t[0]] + v, n + 1)),
            None => None,
        }
    }
}

/// Reads a JSON string: the string and the number of characters read.
#[verifier::opaque]
pub open spec fn parse_string(t: Seq<char>) -> Option<(Seq<char>, int)> {
    if t.len() > 0 && t[0] == '"' {
        match parse_body(t.skip(1)) {
            Some((v, n)) => Some((v, n + 1)),
            None => None,
        }
    } else {
        None
    }
}

/// Whether `s` holds no control character, but for newlines when `nl` is
/// set: what [`escape`] leaves as valid JSON string content.
pub open spec fn json_safe(s: Seq<char>, nl: bool) -> bool {
    forall|j: int| 0 <= j < s.len() ==> (#[trigger] s[j] as u32) >= 0x20 || (nl && s[j] == '\n')
}

/// The JSON string literal [`escape`] writes for `s`.
pub open spec fn quoted_json(s: Seq<char>, nl: bool) -> Seq<char> {
    seq!['"'] + escape(s, nl) + seq!['"']
}

proof fn lemma_parse_body_escape(s: Seq<char>, nl: bool, rest: Seq<char>)
    requires
        json_safe(s, nl),
    ensures
        parse_body(escape(s, nl) + seq!['"'] + rest) == Some((s, escape(s, nl).len() + 1int)),
    decreases s.len(),
{
    if s.len() == 0 {
        assert(escape(s, nl) =~= Seq::<char>::empty());
        let t = escape(s, nl) + seq!['"'] + rest;
        assert(t[0] == '"');
        assert(s =~= Seq::<char>::empty());
    } else {
        lemma_escape_front(s, nl);
        let tail = s.skip(1);
        assert(json_safe(tail, nl)) by {
            assert forall|j: int| 0 <= j < tail.len() implies (#[trigger] tail[j] as u32) >= 0x20 || (nl
                && tail[j] == '\n') by {
                assert(tail[j] == s[j + 1]);
            }
        }
        lemma_parse_body_escape(tail, nl, rest);
        let c = s[0];
        let ec = escape_char(c, nl);
        let t = escape(s, nl) + seq!['"'] + rest;
        let after = escape(tail, nl) + seq!['"'] + rest;
        assert(t =~= ec + after);
        assert(seq![c] + tail =~= s);
        if c == '\\' || c == '"' || (nl && c == '\n') {
            assert(t[0] == '\\');
            assert(t.skip(2) =~= after);
        } else {
            assert(ec =~= seq![c]);
            assert(t[0] == c);
            assert((c as u32) >= 0x20);
            assert(t.skip(1) =~= after);
        }
    }
}

/// A string written by [`quoted_json`] reads back as itself.
pub proof fn law_quoted_json_reads_back(s: Seq<char>, nl: bool, rest: Seq<char>)
    requires
        json_safe(s, nl),
    ensures
        parse_string(quoted_json(s, nl) + rest) == Some((s, quoted_json(s, nl).len() as int)),
{
    reveal(parse_string);
    let t = quoted_json(s, nl) + rest;
    lemma_parse_body_escape(s, nl, rest);
    assert(t.skip(1) =~= escape(s, nl) + seq!['"'] + rest);
}

/// Reads object members up to and including the closing brace: the
/// `(key, value)` pairs, in order, and the number of characters read.
#[verifier::opaque]
pub open spec fn parse_members(t: Seq<char>) -> Option<(Seq<(Seq<char>, Seq<char>)>, int)>
    decreases t.len(),
{
    match parse_string(t) {
        Some((k, n1)) => if 0 <= n1 && n1 < t.len() && t[n1] == ':' {
            match parse_string(t.skip(n1 + 1)) {
                Some((v, n2)) => {
                    let p = n1 + 1 + n2;
                    if 0 <= n2 && p < t.len() && t[p] == ',' {
                        match parse_members(t.skip(p + 1)) {
                            Some((rest, n3)) => Some((seq![(k, v)] + rest, p + 1 + n3)),
                            None => None,
                        }
                    } else if 0 <= n2 && p < t.len() && t[p] == '}' {
                        Some((seq![(k, v)], p + 1))
                    } else {
                        None
                    }
                },
                None => None,
            }
        } else {
            None
        },
        None => None,
    }
}

/// Reads an object whose members are strings: its pairs and the number of
/// characters read.
#[verifier::opaque]
pub open spec fn parse_object(t: Seq<char>) -> Option<(Seq<(Seq<char>, Seq<char>)>, int)> {
    if t.len() >= 2 && t[0] == '{' {
        if t[1] == '}' {
            Some((Seq::empty(), 2))
        } else {
            match parse_members(t.skip(1)) {
                Some((m, n)) => Some((m, n + 1)),
                None => None,
            }
        }
    } else {
        None
    }
}

/// Reads array elements (objects) up to and including the closing bracket.
pub open spec fn parse_elems(t: Seq<char>) -> Option<(Seq<Seq<(Seq<char>, Seq<char>)>>, int)>
    decreases t.len(),
{
    match parse_object(t) {
        Some((o, n)) => if 0 <= n < t.len() && t[n] == ',' {
            match parse_elems(t.skip(n + 1)) {
                Some((r, n2)) => Some((seq![o] + r, n + 1 + n2)),
                None => None,
            }
        } else if 0 <= n < t.len() && t[n] == ']' {
            Some((seq![o], n + 1))
        } else {
            None
        },
        None => None,
    }
}

/// Reads the whole of `t` as an array of objects whose members are strings.
pub open spec fn parse_object_array(t: Seq<char>) -> Option<Seq<Seq<(Seq<char>, Seq<char>)>>> {
    if t.len() >= 2 && t[0] == '[' {
        if t[1] == ']' {
            if t.len() == 2 {
                Some(Seq::empty())
            } else {
                None
            }
        } else {
            match parse_elems(t.skip(1)) {
                Some((a, n)) => if n + 1 == t.len() {
                    Some(a)
                } else {
                    None
                },
                None => None,
            }
        }
    } else {
        None
    }
}

/// One member written as `"key":"value"`.
pub open spec fn member_json(k: Seq<char>, v: Seq<char>, nl: bool) -> Seq<char> {
    quoted_json(k, nl) + seq![':'] + quoted_json(v, nl)
}

/// Members written one after another, separated by commas.
pub open spec fn members_json(ps: Seq<(Seq<char>, Seq<char>)>, nl: bool) -> Seq<char>
    decreases ps.len(),
{
    if ps.len() == 0 {
        Seq::empty()
    } else if ps.len() == 1 {
        member_json(ps[0].0, ps[0].1, nl)
    } else {
        member_json(ps[0].0, ps[0].1, nl) + seq![','] + members_json(ps.skip(1), nl)
    }
}

/// An object written as `{` members `}`.
pub open spec fn object_json(ps: Seq<(Seq<char>, Seq<char>)>, nl: bool) -> Seq<char> {
    seq!['{'] + members_json(ps, nl) + seq!['}']
}

/// Items joined with commas, first item first.
pub open spec fn join_front(items: Seq<Seq<char>>) -> Seq<char>
    decreases items.len(),
{
    if items.len() == 0 {
        Seq::empty()
    } else if items.len() == 1 {
        items[0]
    } else {
        items[0] + seq![','] + join_front(items.skip(1))
    }
}

/// Whether every key and value of `ps` is [`json_safe`].
pub open spec fn pairs_safe(ps: Seq<(Seq<char>, Seq<char>)>, nl: bool) -> bool {
    forall|i: int| 0 <= i < ps.len() ==> json_safe(#[trigger] ps[i].0, nl) && json_safe(ps[i].1, nl)
}

proof fn lemma_parse_members(ps: Seq<(Seq<char>, Seq<char>)>, nl: bool, rest: Seq<char>)
    requires
        ps.len() >= 1,
        pairs_safe(ps, nl),
    ensures
        parse_members(members_json(ps, nl) + seq!['}'] + rest) == Some(
            (ps, members_json(ps, nl).len() + 1int),
        ),
    decreases ps.len(),
{
    reveal(parse_members);
    let k = ps[0].0;
    let v = ps[0].1;
    assert(json_safe(k, nl) && json_safe(v, nl));
    let qk = quoted_json(k, nl);
    let qv = quoted_json(v, nl);
    let tail = ps.skip(1);
    let x = if ps.len() == 1 {
        seq!['}'] + rest
    } else {
        seq![','] + members_json(tail, nl) + seq!['}'] + rest
    };
    let t = members_json(ps, nl) + seq!['}'] + rest;
    assert(t =~= qk + (seq![':'] + (qv + x)));
    law_quoted_json_reads_back(k, nl, seq![':'] + (qv + x));
    assert(t[qk.len() as int] == ':');
    assert(t.skip(qk.len() + 1int) =~= qv + x);
    law_quoted_json_reads_back(v, nl, x);
    let p = qk.len() + 1int + qv.len();
    assert(t[p] == x[0]);
    if ps.len() == 1 {
        assert(ps =~= seq![(k, v)]);
    } else {
        assert(pairs_safe(tail, nl)) by {
            assert forall|i: int| 0 <= i < tail.len() implies json_safe(#[trigger] tail[i].0, nl) && json_safe(
                tail[i].1,
                nl,
            ) by {
                assert(tail[i] == ps[i + 1]);
            }
        }
        lemma_parse_members(tail, nl, rest);
        assert(t.skip(p + 1) =~= members_json(tail, nl) + seq!['}'] + rest);
        assert(seq![(k, v)] + tail =~= ps);
    }
}

proof fn lemma_parse_object(ps: Seq<(Seq<char>, Seq<char>)>, nl: bool, rest: Seq<char>)
    requires
        ps.len() >= 1,
        pairs_safe(ps, nl),
    ensures
        parse_object(object_json(ps, nl) + rest) == Some((ps, object_json(ps, nl).len() as int)),
{
    reveal(parse_object);
    let t = object_json(ps, nl) + rest;
    lemma_parse_members(ps, nl, rest);
    assert(t.skip(1) =~= members_json(ps, nl) + seq!['}'] + rest);
    if ps.len() == 1 {
        assert(t[1] == '"');
    } else {
        assert(t[1] == '"');
    }
}

/// Whether every object of `objs` has a member and all its strings are
/// [`json_safe`].
pub open spec fn objects_safe(objs: Seq<Seq<(Seq<char>, Seq<char>)>>, nl: bool) -> bool {
    forall|i: int| 0 <= i < objs.len() ==> (#[trigger] objs[i]).len() >= 1 && pairs_safe(objs[i], nl)
}

/// The objects of `objs`, each written by [`object_json`].
pub open spec fn objects_json(objs: Seq<Seq<(Seq<char>, Seq<char>)>>, nl: bool) -> Seq<Seq<char>> {
    Seq::new(objs.len(), |i: int| object_json(objs[i], nl))
}

proof fn lemma_parse_elems(objs: Seq<Seq<(Seq<char>, Seq<char>)>>, nl: bool, rest: Seq<char>)
    requires
        objs.len() >= 1,
        objects_safe(objs, nl),
    ensures
        parse_elems(join_front(objects_json(objs, nl)) + seq![']'] + rest) == Some(
            (objs, join_front(objects_json(objs, nl)).len() + 1int),
        ),
    decreases objs.len(),
{
    let items = objects_json(objs, nl);
    let o = objs[0];
    let tail = objs.skip(1);
    assert(o.len() >= 1 && pairs_safe(o, nl));
    let x = if objs.len() == 1 {
        seq![']'] + rest
    } else {
        seq![','] + join_front(objects_json(tail, nl)) + seq![']'] + rest
    };
    let t = join_front(items) + seq![']'] + rest;
    if objs.len() > 1 {
        assert(items.skip(1) =~= objects_json(tail, nl));
    }
    assert(t =~= object_json(o, nl) + x);
    lemma_parse_object(o, nl, x);
    let n = object_json(o, nl).len() as int;
    assert(t[n] == x[0]);
    if objs.len() == 1 {
        assert(objs =~= seq![o]);
    } else {
        assert(objects_safe(tail, nl)) by {
            assert forall|i: int| 0 <= i < tail.len() implies (#[trigger] tail[i]).len() >= 1 && pairs_safe(
                tail[i],
                nl,
            ) by {
                assert(tail[i] == objs[i + 1]);
            }
        }
        lemma_parse_elems(tail, nl, rest);
        assert(t.skip(n + 1) =~= join_front(objects_json(tail, nl)) + seq![']'] + rest);
        assert(seq![o] + tail =~= objs);
    }
}

proof fn lemma_join_front_back(items: Seq<Seq<char>>)
    requires
        items.len() >= 2,
    ensures
        join_front(items) == join_front(items.drop_last()) + seq![','] + items.last(),
    decreases items.len(),
{
    if items.len() == 2 {
        assert(items.skip(1).len() == 1);
        assert(items.drop_last().len() == 1);
        assert(join_front(items.skip(1)) == items.skip(1)[0]);
        assert(items.skip(1)[0] == items.last());
        assert(join_front(items.drop_last()) == items.drop_last()[0]);
        assert(items.drop_last()[0] == items[0]);
    } else {
        lemma_join_front_back(items.skip(1));
        assert(items.skip(1).drop_last() =~= items.drop_last().skip(1));
        assert(items.skip(1).last() == items.last());
        assert(items.drop_last()[0] == items[0]);
        assert(join_front(items) == items[0] + seq![','] + join_front(items.skip(1)));
        assert(join_front(items.drop_last()) == items[0] + seq![','] + join_front(items.drop_last().skip(1)));
        assert(items[0] + seq![','] + (join_front(items.drop_last().skip(1)) + seq![','] + items.last())
            =~= items[0] + seq![','] + join_front(items.drop_last().skip(1)) + seq![','] + items.last());
    }
}

proof fn lemma_join_commas_front(items: Seq<Seq<char>>)
    ensures
        crate::meta::join_commas(items) == join_front(items),
    decreases items.len(),
{
    if items.len() >= 2 {
        lemma_join_commas_front(items.drop_last());
        lemma_join_front_back(items);
    }
}

/// An array of objects written by the metadata encoders' array form
/// ([`crate::meta::json_array`] over [`object_json`] items) reads back as
/// those objects, in order, when their strings are [`json_safe`].
pub proof fn law_object_array_reads_back(objs: Seq<Seq<(Seq<char>, Seq<char>)>>, nl: bool)
    requires
        objects_safe(objs, nl),
    ensures
        parse_object_array(crate::meta::json_array(objects_json(objs, nl))) == Some(objs),
{
    let items = objects_json(objs, nl);
    let t = crate::meta::json_array(items);
    lemma_join_commas_front(items);
    if objs.len() == 0 {
        assert(items.len() == 0);
        assert(t =~= seq!['[', ']']);
        assert(objs =~= Seq::<Seq<(Seq<char>, Seq<char>)>>::empty());
    } else {
        lemma_parse_elems(objs, nl, Seq::empty());
        assert(t.skip(1) =~= join_front(items) + seq![']'] + Seq::<char>::empty());
        assert(items[0] == object_json(objs[0], nl));
        if objs.len() == 1 {
            assert(t[1] == '{');
        } else {
            assert(t[1] == '{');
        }
    }
}

/// Whether `s` has no character that [`escape`] changes.
pub open spec fn plain(s: Seq<char>) -> bool {
    forall|j: int| 0 <= j < s.len() ==> #[trigger] s[j] != '\\' && s[j] != '"' && s[j] != '\n'
}

proof fn lemma_plain_escape(s: Seq<char>, nl: bool)
    requires
        plain(s),
    ensures
        escape(s, nl) == s,
    decreases s.len(),
{
    if s.len() > 0 {
        assert(plain(s.drop_last())) by {
            assert forall|j: int| 0 <= j < s.drop_last().len() implies #[trigger] s.drop_last()[j] != '\\'
                && s.drop_last()[j] != '"' && s.drop_last()[j] != '\n' by {
                assert(s.drop_last()[j] == s[j]);
            }
        }
        lemma_plain_escape(s.drop_last(), nl);
        assert(s[s.len() - 1] == s.last());
        assert(escape_char(s.last(), nl) =~= seq![s.last()]);
        assert(s.drop_last().push(s.last()) =~= s);
        assert(s.drop_last() + seq![s.last()] =~= s);
    }
}

proof fn lemma_three_members(
    k1: Seq<char>,
    v1: Seq<char>,
    k2: Seq<char>,
    v2: Seq<char>,
    k3: Seq<char>,
    v3: Seq<char>,
    nl: bool,
)
    ensures
        object_json(seq![(k1, v1), (k2, v2), (k3, v3)], nl) == seq!['{'] + member_json(k1, v1, nl) + seq![
            ',',
        ] + member_json(k2, v2, nl) + seq![','] + member_json(k3, v3, nl) + seq!['}'],
{
    let ps = seq![(k1, v1), (k2, v2), (k3, v3)];
    assert(ps.skip(1) =~= seq![(k2, v2), (k3, v3)]);
    assert(ps.skip(1).skip(1) =~= seq![(k3, v3)]);
    assert(members_json(ps.skip(1).skip(1), nl) == member_json(k3, v3, nl));
    assert(members_json(ps.skip(1), nl) == member_json(k2, v2, nl) + seq![','] + member_json(k3, v3, nl));
    assert(object_json(ps, nl) =~= seq!['{'] + member_json(k1, v1, nl) + seq![','] + member_json(k2, v2, nl)
        + seq![','] + member_json(k3, v3, nl) + seq!['}']);
}

proof fn lemma_column_object(a: Seq<char>, b: Seq<char>, c: Seq<char>)
    ensures
        column_object(a, b, c) == object_json(
            seq![("name"@, a), ("type"@, b), ("description"@, c)],
            false,
        ),
{
    reveal_strlit("name");
    reveal_strlit("type");
    reveal_strlit("description");
    reveal_strlit("{\"name\":\"");
    reveal_strlit("\",\"type\":\"");
    reveal_strlit("\",\"description\":\"");
    reveal_strlit("\"}");
    lemma_plain_escape("name"@, false);
    lemma_plain_escape("type"@, false);
    lemma_plain_escape("description"@, false);
    lemma_three_members("name"@, a, "type"@, b, "description"@, c, false);
    assert(column_object(a, b, c) =~= object_json(
        seq![("name"@, a), ("type"@, b), ("description"@, c)],
        false,
    ));
}

proof fn lemma_two_members(k1: Seq<char>, v1: Seq<char>, k2: Seq<char>, v2: Seq<char>, nl: bool)
    ensures
        object_json(seq![(k1, v1), (k2, v2)], nl) == seq!['{'] + member_json(k1, v1, nl) + seq![',']
            + member_json(k2, v2, nl) + seq!['}'],
{
    let ps = seq![(k1, v1), (k2, v2)];
    assert(ps.skip(1) =~= seq![(k2, v2)]);
    assert(members_json(ps.skip(1), nl) == member_json(k2, v2, nl));
    assert(object_json(ps, nl) =~= seq!['{'] + member_json(k1, v1, nl) + seq![','] + member_json(k2, v2, nl)
        + seq!['}']);
}

proof fn lemma_task_object(a: Seq<char>, b: Seq<char>, c: Seq<char>)
    ensures
        task_object(a, b, c) == object_json(seq![("name"@, a), ("prompt"@, b), ("reference_sql"@, c)], true),
{
    reveal_strlit("name");
    reveal_strlit("prompt");
    reveal_strlit("reference_sql");
    reveal_strlit("{\"name\":\"");
    reveal_strlit("\",\"prompt\":\"");
    reveal_strlit("\",\"reference_sql\":\"");
    reveal_strlit("\"}");
    lemma_plain_escape("name"@, true);
    lemma_plain_escape("prompt"@, true);
    lemma_plain_escape("reference_sql"@, true);
    lemma_three_members("name"@, a, "prompt"@, b, "reference_sql"@, c, true);
    assert(task_object(a, b, c) =~= object_json(
        seq![("name"@, a), ("prompt"@, b), ("reference_sql"@, c)],
        true,
    ));
}

proof fn lemma_example_object(a: Seq<char>, b: Seq<char>)
    ensures
        example_object(a, b) == object_json(seq![("description"@, a), ("sql"@, b)], true),
{
    reveal_strlit("description");
    reveal_strlit("sql");
    reveal_strlit("{\"description\":\"");
    reveal_strlit("\",\"sql\":\"");
    reveal_strlit("\"}");
    lemma_plain_escape("description"@, true);
    lemma_plain_escape("sql"@, true);
    lemma_two_members("description"@, a, "sql"@, b, true);
    assert(example_object(a, b) =~= object_json(seq![("description"@, a), ("sql"@, b)], true));
}

proof fn lemma_category_object(a: Seq<char>, b: Seq<char>)
    ensures
        category_object(a, b) == object_json(seq![("name"@, a), ("description"@, b)], false),
{
    reveal_strlit("name");
    reveal_strlit("description");
    reveal_strlit("{\"name\":\"");
    reveal_strlit("\",\"description\":\"");
    reveal_strlit("\"}");
    lemma_plain_escape("name"@, false);
    lemma_plain_escape("description"@, false);
    lemma_two_members("name"@, a, "description"@, b, false);
    assert(category_object(a, b) =~= object_json(seq![("name"@, a), ("description"@, b)], false));
}

/// What `result_columns_schema_json(columns)` writes reads back, as JSON,
/// as one `{"name", "type", "description"}` object per column, in order,
/// when no column string holds a control character.
pub proof fn law_result_columns_read_back(columns: Seq<(&str, &str, &str)>)
    requires
        forall|i: int|
            0 <= i < columns.len() ==> json_safe((#[trigger] columns[i]).0@, false) && json_safe(
                columns[i].1@,
                false,
            ) && json_safe(columns[i].2@, false),
    ensures
        parse_object_array(
            json_array(
                Seq::new(
                    columns.len(),
                    |i: int| column_object(columns[i].0@, columns[i].1@, columns[i].2@),
                ),
            ),
        ) == Some(
            Seq::new(
                columns.len(),
                |i: int| seq![("name"@, columns[i].0@), ("type"@, columns[i].1@), ("description"@, columns[i].2@)],
            ),
        ),
{
    reveal_strlit("name");
    reveal_strlit("type");
    reveal_strlit("description");
    let objs = Seq::new(
        columns.len(),
        |i: int| seq![("name"@, columns[i].0@), ("type"@, columns[i].1@), ("description"@, columns[i].2@)],
    );
    let items = Seq::new(
        columns.len(),
        |i: int| column_object(columns[i].0@, columns[i].1@, columns[i].2@),
    );
    assert forall|i: int| 0 <= i < columns.len() implies items[i] == object_json(objs[i], false) by {
        lemma_column_object(columns[i].0@, columns[i].1@, columns[i].2@);
    }
    assert(items =~= objects_json(objs, false));
    assert forall|i: int| 0 <= i < objs.len() implies (#[trigger] objs[i]).len() >= 1 && pairs_safe(
        objs[i],
        false,
    ) by {
        assert(json_safe(columns[i].0@, false));
    }
    law_object_array_reads_back(objs, false);
}

/// What `agent_test_tasks_json(tasks)` writes reads back, as JSON, as one
/// `{"name", "prompt", "reference_sql"}` object per task, in order, when no
/// task string holds a control character other than a newline.
pub proof fn law_agent_tasks_read_back(tasks: Seq<(&str, &str, &str)>)
    requires
        forall|i: int|
            0 <= i < tasks.len() ==> json_safe((#[trigger] tasks[i]).0@, true) && json_safe(tasks[i].1@, true)
                && json_safe(tasks[i].2@, true),
    ensures
        parse_object_array(
            json_array(Seq::new(tasks.len(), |i: int| task_object(tasks[i].0@, tasks[i].1@, tasks[i].2@))),
        ) == Some(
            Seq::new(
                tasks.len(),
                |i: int| seq![("name"@, tasks[i].0@), ("prompt"@, tasks[i].1@), ("reference_sql"@, tasks[i].2@)],
            ),
        ),
{
    reveal_strlit("name");
    reveal_strlit("prompt");
    reveal_strlit("reference_sql");
    let objs = Seq::new(
        tasks.len(),
        |i: int| seq![("name"@, tasks[i].0@), ("prompt"@, tasks[i].1@), ("reference_sql"@, tasks[i].2@)],
    );
    let items = Seq::new(tasks.len(), |i: int| task_object(tasks[i].0@, tasks[i].1@, tasks[i].2@));
    assert forall|i: int| 0 <= i < tasks.len() implies items[i] == object_json(objs[i], true) by {
        lemma_task_object(tasks[i].0@, tasks[i].1@, tasks[i].2@);
    }
    assert(items =~= objects_json(objs, true));
    assert forall|i: int| 0 <= i < objs.len() implies (#[trigger] objs[i]).len() >= 1 && pairs_safe(
        objs[i],
        true,
    ) by {
        assert(json_safe(tasks[i].0@, true));
    }
    law_object_array_reads_back(objs, true);
}

/// What `example_queries_json(examples)` writes reads back, as JSON, as one
/// `{"description", "sql"}` object per example, in order, when no example
/// string holds a control character other than a newline.
pub proof fn law_example_queries_read_back(examples: Seq<(&str, &str)>)
    requires
        forall|i: int|
            0 <= i < examples.len() ==> json_safe((#[trigger] examples[i]).0@, true) && json_safe(
                examples[i].1@,
                true,
            ),
    ensures
        parse_object_array(
            json_array(Seq::new(examples.len(), |i: int| example_object(examples[i].0@, examples[i].1@))),
        ) == Some(
            Seq::new(examples.len(), |i: int| seq![("description"@, examples[i].0@), ("sql"@, examples[i].1@)]),
        ),
{
    reveal_strlit("description");
    reveal_strlit("sql");
    let objs = Seq::new(
        examples.len(),
        |i: int| seq![("description"@, examples[i].0@), ("sql"@, examples[i].1@)],
    );
    let items = Seq::new(examples.len(), |i: int| example_object(examples[i].0@, examples[i].1@));
    assert forall|i: int| 0 <= i < examples.len() implies items[i] == object_json(objs[i], true) by {
        lemma_example_object(examples[i].0@, examples[i].1@);
    }
    assert(items =~= objects_json(objs, true));
    assert forall|i: int| 0 <= i < objs.len() implies (#[trigger] objs[i]).len() >= 1 && pairs_safe(
        objs[i],
        true,
    ) by {
        assert(json_safe(examples[i].0@, true));
    }
    law_object_array_reads_back(objs, true);
}

/// What `categories_json(categories)` writes reads back, as JSON, as one
/// `{"name", "description"}` object per category, in order, when no
/// category string holds a control character.
pub proof fn law_categories_read_back(categories: Seq<(&str, &str)>)
    requires
        forall|i: int|
            0 <= i < categories.len() ==> json_safe((#[trigger] categories[i]).0@, false) && json_safe(
                categories[i].1@,
                false,
            ),
    ensures
        parse_object_array(
            json_array(
                Seq::new(categories.len(), |i: int| category_object(categories[i].0@, categories[i].1@)),
            ),
        ) == Some(
            Seq::new(
                categories.len(),
                |i: int| seq![("name"@, categories[i].0@), ("description"@, categories[i].1@)],
            ),
        ),
{
    reveal_strlit("name");
    reveal_strlit("description");
    let objs = Seq::new(
        categories.len(),
        |i: int| seq![("name"@, categories[i].0@), ("description"@, categories[i].1@)],
    );
    let items = Seq::new(categories.len(), |i: int| category_object(categories[i].0@, categories[i].1@));
    assert forall|i: int| 0 <= i < categories.len() implies items[i] == object_json(objs[i], false) by {
        lemma_category_object(categories[i].0@, categories[i].1@);
    }
    assert(items =~= objects_json(objs, false));
    assert forall|i: int| 0 <= i < objs.len() implies (#[trigger] objs[i]).len() >= 1 && pairs_safe(
        objs[i],
        false,
    ) by {
        assert(json_safe(categories[i].0@, false));
    }
    law_object_array_reads_back(objs, false);
}

} // verus!
