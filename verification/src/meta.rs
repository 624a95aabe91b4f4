//! JSON encoders for the per-object discovery metadata that the worker
//! attaches to every function and table: keyword arrays, agent test tasks,
//! result-column schemas, example queries, category registries and the
//! standard tag list.
//!
//! Every encoder escapes `\` and `"` (and, where noted, newlines) and joins its
//! items with `,` inside `[` `]`.
use vstd::prelude::*;

use crate::text::{chars_of, string_from_chars, trim, trim_chars};

verus! {

/// How one character is written inside a JSON string: `\` and `"` get a
/// backslash, and a newline becomes `\n` when `nl` is set.
pub open spec fn escape_char(c: char, nl: bool) -> Seq<char> {
    if c == '\\' {
        seq!['\\', '\\']
    } else if c == '"' {
        seq!['\\', '"']
    } else if nl && c == '\n' {
        seq!['\\', 'n']
    } else {
        seq![c]
    }
}

/// `s` escaped character by character.
pub open spec fn escape(s: Seq<char>, nl: bool) -> Seq<char>
    decreases s.len(),
{
    if s.len() == 0 {
        Seq::empty()
    } else {
        escape(s.drop_last(), nl) + escape_char(s.last(), nl)
    }
}

/// The items joined with `,`.
pub open spec fn join_commas(items: Seq<Seq<char>>) -> Seq<char>
    decreases items.len(),
{
    if items.len() == 0 {
        Seq::empty()
    } else if items.len() == 1 {
        items[0]
    } else {
        join_commas(items.drop_last()).push(',') + items.last()
    }
}

/// A JSON array whose already-encoded items are `items`.
pub open spec fn json_array(items: Seq<Seq<char>>) -> Seq<char> {
    seq!['['] + join_commas(items) + seq![']']
}

/// A JSON string literal holding `s` (escaped without touching newlines).
pub open spec fn quoted(s: Seq<char>) -> Seq<char> {
    seq!['"'] + escape(s, false) + seq!['"']
}

/// The pieces of `s` between commas (one empty piece for an empty `s`).
pub open spec fn split_commas(s: Seq<char>) -> Seq<Seq<char>>
    decreases s.len(),
{
    if s.len() == 0 {
        seq![Seq::empty()]
    } else {
        let rest = split_commas(s.drop_last());
        if s.last() == ',' {
            rest.push(Seq::empty())
        } else {
            rest.update(rest.len() - 1, rest.last().push(s.last()))
        }
    }
}

/// The keyword items of the given pieces: each piece trimmed, empty ones
/// dropped, the rest written as JSON strings.
pub open spec fn keyword_items(pieces: Seq<Seq<char>>) -> Seq<Seq<char>>
    decreases pieces.len(),
{
    if pieces.len() == 0 {
        Seq::empty()
    } else {
        let rest = keyword_items(pieces.drop_last());
        let t = trim(pieces.last());
        if t.len() == 0 {
            rest
        } else {
            rest.push(quoted(t))
        }
    }
}

/// What `keywords_json` returns for a comma-separated keyword list.
pub open spec fn spec_keywords_json(keywords: Seq<char>) -> Seq<char> {
    json_array(keyword_items(split_commas(keywords)))
}

/// One agent test task object.
pub open spec fn task_object(name: Seq<char>, prompt: Seq<char>, sql: Seq<char>) -> Seq<char> {
    "{\"name\":\""@ + escape(name, true) + "\",\"prompt\":\""@ + escape(prompt, true)
        + "\",\"reference_sql\":\""@ + escape(sql, true) + "\"}"@
}

/// One result column object.
pub open spec fn column_object(name: Seq<char>, ty: Seq<char>, description: Seq<char>) -> Seq<
    char,
> {
    "{\"name\":\""@ + escape(name, false) + "\",\"type\":\""@ + escape(ty, false)
        + "\",\"description\":\""@ + escape(description, false) + "\"}"@
}

/// One example query object.
pub open spec fn example_object(description: Seq<char>, sql: Seq<char>) -> Seq<char> {
    "{\"description\":\""@ + escape(description, true) + "\",\"sql\":\""@ + escape(sql, true)
        + "\"}"@
}

/// One category object.
pub open spec fn category_object(name: Seq<char>, description: Seq<char>) -> Seq<char> {
    "{\"name\":\""@ + escape(name, false) + "\",\"description\":\""@ + escape(
        description,
        false,
    ) + "\"}"@
}

/// Reads back a JSON string body written by [`escape`]: a backslash and the
/// character after it stand for that character (`\n` for a newline when
/// `nl` is set); every other character stands for itself.
pub open spec fn unescape(t: Seq<char>, nl: bool) -> Seq<char>
    decreases t.len(),
{
    if t.len() == 0 {
        Seq::empty()
    } else if t[0] == '\\' && t.len() >= 2 {
        let c = if nl && t[1] == 'n' {
            '\n'
        } else {
            t[1]
        };
        seq![c] + unescape(t.skip(2), nl)
    } else {
        seq![t[0]] + unescape(t.skip(1), nl)
    }
}

pub proof fn lemma_escape_front(s: Seq<char>, nl: bool)
    requires
        s.len() > 0,
    ensures
        escape(s, nl) == escape_char(s[0], nl) + escape(s.skip(1), nl),
    decreases s.len(),
{
    if s.len() == 1 {
        assert(s.drop_last() =~= Seq::<char>::empty());
        assert(s.skip(1) =~= Seq::<char>::empty());
        assert(escape_char(s[0], nl) + Seq::<char>::empty() =~= escape_char(s[0], nl));
    } else {
        lemma_escape_front(s.drop_last(), nl);
        assert(s.drop_last().skip(1) =~= s.skip(1).drop_last());
        assert(s.skip(1).last() == s.last());
        assert(escape_char(s[0], nl) + escape(s.skip(1).drop_last(), nl) + escape_char(s.last(), nl)
            =~= escape_char(s[0], nl) + (escape(s.skip(1).drop_last(), nl) + escape_char(s.last(), nl)));
    }
}

proof fn lemma_unescape_char(c: char, rest: Seq<char>, nl: bool)
    ensures
        unescape(escape_char(c, nl) + rest, nl) == seq![c] + unescape(rest, nl),
{
    let t = escape_char(c, nl) + rest;
    if c == '\\' || c == '"' || (nl && c == '\n') {
        assert(t.skip(2) =~= rest);
    } else {
        assert(t.skip(1) =~= rest);
    }
}

/// Escaping loses nothing: reading an escaped string back gives the string.
pub proof fn law_escape_round_trips(s: Seq<char>, nl: bool)
    ensures
        unescape(escape(s, nl), nl) == s,
    decreases s.len(),
{
    if s.len() == 0 {
    } else {
        lemma_escape_front(s, nl);
        lemma_unescape_char(s[0], escape(s.skip(1), nl), nl);
        law_escape_round_trips(s.skip(1), nl);
        assert(seq![s[0]] + s.skip(1) =~= s);
    }
}

/// The character sequences of a vector of character vectors.
pub open spec fn char_vecs_view(v: Seq<Vec<char>>) -> Seq<Seq<char>> {
    v.map_values(|x: Vec<char>| x@)
}

/// The character sequences of a slice of string slices.
pub open spec fn strs_seq(v: Seq<&str>) -> Seq<Seq<char>> {
    v.map_values(|x: &str| x@)
}

fn push_str(out: &mut Vec<char>, s: &str)
    ensures
        final(out)@ == old(out)@ + s@,
{
    let cs = chars_of(s);
    let mut i: usize = 0;
    while i < cs.len()
        invariant
            i <= cs.len(),
            cs@ == s@,
            out@ == old(out)@ + cs@.take(i as int),
        decreases cs.len() - i,
    {
        out.push(cs[i]);
        i = i + 1;
        assert(out@ =~= old(out)@ + cs@.take(i as int));
    }
    assert(cs@.take(cs.len() as int) =~= cs@);
}

fn push_escaped(out: &mut Vec<char>, s: &[char], nl: bool)
    ensures
        final(out)@ == old(out)@ + escape(s@, nl),
{
    let mut i: usize = 0;
    while i < s.len()
        invariant
            i <= s.len(),
            out@ == old(out)@ + escape(s@.take(i as int), nl),
        decreases s.len() - i,
    {
        let c = s[i];
        let ghost pre = out@;
        if c == '\\' {
            out.push('\\');
            out.push('\\');
        } else if c == '"' {
            out.push('\\');
            out.push('"');
        } else if nl && c == '\n' {
            out.push('\\');
            out.push('n');
        } else {
            out.push(c);
        }
        proof {
            assert(out@ =~= pre + escape_char(c, nl));
            assert(s@.take(i + 1).drop_last() =~= s@.take(i as int));
            assert(s@.take(i + 1).last() == c);
        }
        i = i + 1;
        assert(out@ =~= old(out)@ + escape(s@.take(i as int), nl));
    }
    assert(s@.take(s.len() as int) =~= s@);
}

fn push_escaped_str(out: &mut Vec<char>, s: &str, nl: bool)
    ensures
        final(out)@ == old(out)@ + escape(s@, nl),
{
    let cs = chars_of(s);
    push_escaped(out, &cs, nl);
}

/// `[` + the items joined with `,` + `]`, as a string.
fn json_array_of(items: &Vec<Vec<char>>) -> (r: String)
    ensures
        r@ == json_array(char_vecs_view(items@)),
{
    let ghost iv = char_vecs_view(items@);
    let mut out: Vec<char> = Vec::new();
    out.push('[');
    let mut i: usize = 0;
    while i < items.len()
        invariant
            i <= items.len(),
            iv == char_vecs_view(items@),
            out@ == seq!['['] + join_commas(iv.take(i as int)),
        decreases items.len() - i,
    {
        let ghost pre = out@;
        if i > 0 {
            out.push(',');
        }
        let item = &items[i];
        let mut j: usize = 0;
        let ghost mid = out@;
        while j < item.len()
            invariant
                j <= item.len(),
                out@ == mid + item@.take(j as int),
            decreases item.len() - j,
        {
            out.push(item[j]);
            j = j + 1;
            assert(out@ =~= mid + item@.take(j as int));
        }
        proof {
            assert(item@.take(item.len() as int) =~= item@);
            assert(iv[i as int] == item@);
            let t1 = iv.take(i + 1);
            assert(t1.drop_last() =~= iv.take(i as int));
            assert(t1.last() == item@);
            if i == 0 {
                assert(join_commas(t1) == t1[0]);
                assert(out@ =~= seq!['['] + join_commas(t1));
            } else {
                assert(out@ =~= seq!['['] + join_commas(t1));
            }
        }
        i = i + 1;
    }
    out.push(']');
    assert(iv.take(items.len() as int) =~= iv);
    assert(out@ =~= json_array(iv));
    string_from_chars(&out)
}

/// Encodes comma-separated keywords as a JSON array of strings: each piece
/// trimmed, empty pieces dropped, `\` and `"` escaped.
pub fn keywords_json(keywords: &str) -> (r: String)
    ensures
        r@ == spec_keywords_json(keywords@),
{
    let cs = chars_of(keywords);
    // The pieces between commas.
    let mut pieces: Vec<Vec<char>> = Vec::new();
    let mut cur: Vec<char> = Vec::new();
    let mut i: usize = 0;
    while i < cs.len()
        invariant
            i <= cs.len(),
            cs@ == keywords@,
            split_commas(cs@.take(i as int)) == char_vecs_view(pieces@).push(cur@),
        decreases cs.len() - i,
    {
        let ghost t1 = cs@.take(i + 1);
        assert(t1.drop_last() =~= cs@.take(i as int));
        if cs[i] == ',' {
            let done = cur;
            cur = Vec::new();
            let ghost pv = char_vecs_view(pieces@);
            pieces.push(done);
            assert(char_vecs_view(pieces@) =~= pv.push(done@));
            assert(split_commas(t1) =~= char_vecs_view(pieces@).push(cur@));
        } else {
            let ghost old_cur = cur@;
            cur.push(cs[i]);
            assert(split_commas(t1) =~= char_vecs_view(pieces@).push(cur@));
        }
        i = i + 1;
    }
    assert(cs@.take(cs.len() as int) =~= cs@);
    let ghost all = split_commas(keywords@);
    let ghost pv = char_vecs_view(pieces@);
    pieces.push(cur);
    assert(char_vecs_view(pieces@) =~= all);
    // Trim, drop the empty ones, quote the rest.
    let mut items: Vec<Vec<char>> = Vec::new();
    let mut k: usize = 0;
    while k < pieces.len()
        invariant
            k <= pieces.len(),
            char_vecs_view(pieces@) == all,
            char_vecs_view(items@) == keyword_items(all.take(k as int)),
        decreases pieces.len() - k,
    {
        let t = trim_chars(&pieces[k]);
        let ghost tk = all.take(k + 1);
        assert(tk.drop_last() =~= all.take(k as int));
        assert(tk.last() == pieces@[k as int]@);
        if t.len() > 0 {
            let mut q: Vec<char> = Vec::new();
            q.push('"');
            push_escaped(&mut q, &t, false);
            q.push('"');
            let ghost iv = char_vecs_view(items@);
            assert(q@ =~= quoted(t@));
            items.push(q);
            assert(char_vecs_view(items@) =~= iv.push(quoted(t@)));
        }
        k = k + 1;
    }
    assert(all.take(pieces.len() as int) =~= all);
    json_array_of(&items)
}

/// Encodes `(name, prompt, reference_sql)` triples as a JSON array of task
/// objects, escaping `\`, `"` and newlines.
pub fn agent_test_tasks_json(tasks: &[(&str, &str, &str)]) -> (r: String)
    ensures
        r@ == json_array(
            Seq::new(
                tasks@.len(),
                |i: int| task_object(tasks@[i].0@, tasks@[i].1@, tasks@[i].2@),
            ),
        ),
{
    let ghost want = Seq::new(
        tasks@.len(),
        |i: int| task_object(tasks@[i].0@, tasks@[i].1@, tasks@[i].2@),
    );
    let mut items: Vec<Vec<char>> = Vec::new();
    let mut i: usize = 0;
    while i < tasks.len()
        invariant
            i <= tasks.len(),
            want == Seq::new(
                tasks@.len(),
                |i: int| task_object(tasks@[i].0@, tasks@[i].1@, tasks@[i].2@),
            ),
            char_vecs_view(items@) == want.take(i as int),
        decreases tasks.len() - i,
    {
        let (name, prompt, sql) = tasks[i];
        let mut o: Vec<char> = Vec::new();
        push_str(&mut o, "{\"name\":\"");
        push_escaped_str(&mut o, name, true);
        push_str(&mut o, "\",\"prompt\":\"");
        push_escaped_str(&mut o, prompt, true);
        push_str(&mut o, "\",\"reference_sql\":\"");
        push_escaped_str(&mut o, sql, true);
        push_str(&mut o, "\"}");
        let ghost iv = char_vecs_view(items@);
        assert(o@ =~= want[i as int]);
        items.push(o);
        assert(char_vecs_view(items@) =~= iv.push(want[i as int]));
        assert(iv.push(want[i as int]) =~= want.take(i + 1));
        i = i + 1;
    }
    assert(want.take(tasks.len() as int) =~= want);
    json_array_of(&items)
}

/// Encodes `(name, type, description)` triples as a JSON array of column
/// objects, escaping `\` and `"`.
pub fn result_columns_schema_json(columns: &[(&str, &str, &str)]) -> (r: String)
    ensures
        r@ == json_array(
            Seq::new(
                columns@.len(),
                |i: int| column_object(columns@[i].0@, columns@[i].1@, columns@[i].2@),
            ),
        ),
{
    let ghost want = Seq::new(
        columns@.len(),
        |i: int| column_object(columns@[i].0@, columns@[i].1@, columns@[i].2@),
    );
    let mut items: Vec<Vec<char>> = Vec::new();
    let mut i: usize = 0;
    while i < columns.len()
        invariant
            i <= columns.len(),
            want == Seq::new(
                columns@.len(),
                |i: int| column_object(columns@[i].0@, columns@[i].1@, columns@[i].2@),
            ),
            char_vecs_view(items@) == want.take(i as int),
        decreases columns.len() - i,
    {
        let (name, ty, description) = columns[i];
        let mut o: Vec<char> = Vec::new();
        push_str(&mut o, "{\"name\":\"");
        push_escaped_str(&mut o, name, false);
        push_str(&mut o, "\",\"type\":\"");
        push_escaped_str(&mut o, ty, false);
        push_str(&mut o, "\",\"description\":\"");
        push_escaped_str(&mut o, description, false);
        push_str(&mut o, "\"}");
        let ghost iv = char_vecs_view(items@);
        assert(o@ =~= want[i as int]);
        items.push(o);
        assert(char_vecs_view(items@) =~= iv.push(want[i as int]));
        assert(iv.push(want[i as int]) =~= want.take(i + 1));
        i = i + 1;
    }
    assert(want.take(columns.len() as int) =~= want);
    json_array_of(&items)
}

/// Encodes `(description, sql)` pairs as a JSON array of example query
/// objects, escaping `\`, `"` and newlines.
pub fn example_queries_json(examples: &[(&str, &str)]) -> (r: String)
    ensures
        r@ == json_array(
            Seq::new(examples@.len(), |i: int| example_object(examples@[i].0@, examples@[i].1@)),
        ),
{
    let ghost want = Seq::new(
        examples@.len(),
        |i: int| example_object(examples@[i].0@, examples@[i].1@),
    );
    let mut items: Vec<Vec<char>> = Vec::new();
    let mut i: usize = 0;
    while i < examples.len()
        invariant
            i <= examples.len(),
            want == Seq::new(
                examples@.len(),
                |i: int| example_object(examples@[i].0@, examples@[i].1@),
            ),
            char_vecs_view(items@) == want.take(i as int),
        decreases examples.len() - i,
    {
        let (description, sql) = examples[i];
        let mut o: Vec<char> = Vec::new();
        push_str(&mut o, "{\"description\":\"");
        push_escaped_str(&mut o, description, true);
        push_str(&mut o, "\",\"sql\":\"");
        push_escaped_str(&mut o, sql, true);
        push_str(&mut o, "\"}");
        let ghost iv = char_vecs_view(items@);
        assert(o@ =~= want[i as int]);
        items.push(o);
        assert(char_vecs_view(items@) =~= iv.push(want[i as int]));
        assert(iv.push(want[i as int]) =~= want.take(i + 1));
        i = i + 1;
    }
    assert(want.take(examples.len() as int) =~= want);
    json_array_of(&items)
}

/// Encodes ordered `(name, description)` categories as a JSON array of
/// category objects, escaping `\` and `"`.
pub fn categories_json(categories: &[(&str, &str)]) -> (r: String)
    ensures
        r@ == json_array(
            Seq::new(
                categories@.len(),
                |i: int| category_object(categories@[i].0@, categories@[i].1@),
            ),
        ),
{
    let ghost want = Seq::new(
        categories@.len(),
        |i: int| category_object(categories@[i].0@, categories@[i].1@),
    );
    let mut items: Vec<Vec<char>> = Vec::new();
    let mut i: usize = 0;
    while i < categories.len()
        invariant
            i <= categories.len(),
            want == Seq::new(
                categories@.len(),
                |i: int| category_object(categories@[i].0@, categories@[i].1@),
            ),
            char_vecs_view(items@) == want.take(i as int),
        decreases categories.len() - i,
    {
        let (name, description) = categories[i];
        let mut o: Vec<char> = Vec::new();
        push_str(&mut o, "{\"name\":\"");
        push_escaped_str(&mut o, name, false);
        push_str(&mut o, "\",\"description\":\"");
        push_escaped_str(&mut o, description, false);
        push_str(&mut o, "\"}");
        let ghost iv = char_vecs_view(items@);
        assert(o@ =~= want[i as int]);
        items.push(o);
        assert(char_vecs_view(items@) =~= iv.push(want[i as int]));
        assert(iv.push(want[i as int]) =~= want.take(i + 1));
        i = i + 1;
    }
    assert(want.take(categories.len() as int) =~= want);
    json_array_of(&items)
}

/// The standard discovery tags of one function or table, in order:
/// `vgi.title`, `vgi.doc_llm`, `vgi.doc_md`, `vgi.keywords` (the keywords
/// joined with `,` and encoded by [`keywords_json`]) and `vgi.category`.
pub fn object_tags(
    title: &str,
    description_llm: &str,
    description_md: &str,
    keywords: &[&str],
    category: &str,
) -> (r: Vec<(String, String)>)
    ensures
        r@.len() == 5,
        r@[0].0@ == "vgi.title"@ && r@[0].1@ == title@,
        r@[1].0@ == "vgi.doc_llm"@ && r@[1].1@ == description_llm@,
        r@[2].0@ == "vgi.doc_md"@ && r@[2].1@ == description_md@,
        r@[3].0@ == "vgi.keywords"@ && r@[3].1@ == spec_keywords_json(
            join_commas(strs_seq(keywords@)),
        ),
        r@[4].0@ == "vgi.category"@ && r@[4].1@ == category@,
{
    let ghost kv = strs_seq(keywords@);
    let mut joined: Vec<char> = Vec::new();
    let mut i: usize = 0;
    while i < keywords.len()
        invariant
            i <= keywords.len(),
            kv == strs_seq(keywords@),
            joined@ == join_commas(kv.take(i as int)),
        decreases keywords.len() - i,
    {
        let ghost pre = joined@;
        if i > 0 {
            joined.push(',');
        }
        push_str(&mut joined, keywords[i]);
        proof {
            let t1 = kv.take(i + 1);
            assert(t1.drop_last() =~= kv.take(i as int));
            assert(t1.last() == keywords@[i as int]@);
            if i == 0 {
                assert(joined@ =~= join_commas(t1));
            } else {
                assert(joined@ =~= join_commas(t1));
            }
        }
        i = i + 1;
    }
    assert(kv.take(keywords.len() as int) =~= kv);
    let joined_s = string_from_chars(&joined);
    let kw = keywords_json(joined_s.as_str());
    let mut r: Vec<(String, String)> = Vec::new();
    r.push(("vgi.title".to_string(), title.to_string()));
    r.push(("vgi.doc_llm".to_string(), description_llm.to_string()));
    r.push(("vgi.doc_md".to_string(), description_md.to_string()));
    r.push(("vgi.keywords".to_string(), kw));
    r.push(("vgi.category".to_string(), category.to_string()));
    r
}

} // verus!
