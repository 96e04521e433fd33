//! Reading back a written ISIS3 label: the `key = value` lines a label is
//! made of give back the fields they were written from.
use super::label::{
    assignments, assignments_from, content_end, find_from, is_space, line_assignment, skip_space, skip_space_back,
    trimmed, unquote, extra_line, label_text, with_extra, has_label_fields, isis_type_of, pixel_type_of_isis,
    label_readable, contains_seq, parsed_fields,
};
use crate::text::utf8;
use vstd::utf8::{decode_utf8, valid_utf8};
use vstd::prelude::*;

verus! {

/// `x` holds `s[lo..hi]` at offset `o`.
pub open spec fn agree(x: Seq<char>, s: Seq<char>, o: int, lo: int, hi: int) -> bool {
    &&& 0 <= o
    &&& 0 <= lo <= hi <= s.len()
    &&& o + hi <= x.len()
    &&& forall|k: int| lo <= k < hi ==> #[trigger] x[o + k] == s[k]
}

proof fn lemma_find_shift(x: Seq<char>, s: Seq<char>, o: int, c: char, i: int, j: int)
    requires
        agree(x, s, o, i, j),
    ensures
        find_from(x, c, o + i, o + j) == o + find_from(s, c, i, j),
    decreases j - i,
{
    if i < j {
        assert(x[o + i] == s[i]);
        if s[i] != c {
            lemma_find_shift(x, s, o, c, i + 1, j);
        }
    }
}

proof fn lemma_skip_shift(x: Seq<char>, s: Seq<char>, o: int, i: int, j: int)
    requires
        agree(x, s, o, i, j),
    ensures
        skip_space(x, o + i, o + j) == o + skip_space(s, i, j),
    decreases j - i,
{
    if i < j {
        assert(x[o + i] == s[i]);
        lemma_skip_shift(x, s, o, i + 1, j);
    }
}

proof fn lemma_skip_back_shift(x: Seq<char>, s: Seq<char>, o: int, i: int, j: int)
    requires
        agree(x, s, o, i, j),
    ensures
        skip_space_back(x, o + i, o + j) == o + skip_space_back(s, i, j),
    decreases j - i,
{
    if i < j {
        assert(x[o + (j - 1)] == s[j - 1]);
        lemma_skip_back_shift(x, s, o, i, j - 1);
    }
}

proof fn lemma_skip_bounds(s: Seq<char>, i: int, j: int)
    requires
        i <= j,
    ensures
        i <= skip_space(s, i, j) <= j,
        i <= skip_space_back(s, i, j) <= j,
    decreases j - i,
{
    if i < j {
        lemma_skip_bounds(s, i + 1, j);
        lemma_skip_bounds(s, i, j - 1);
    }
}

proof fn lemma_trimmed_shift(x: Seq<char>, s: Seq<char>, o: int, i: int, j: int)
    requires
        agree(x, s, o, i, j),
    ensures
        trimmed(x, o + i, o + j) == trimmed(s, i, j),
{
    lemma_skip_shift(x, s, o, i, j);
    let a = skip_space(s, i, j);
    lemma_skip_bounds(s, i, j);
    lemma_skip_back_shift(x, s, o, a, j);
    let b = skip_space_back(s, a, j);
    lemma_skip_bounds(s, a, j);
    assert(x.subrange(o + a, o + b) =~= s.subrange(a, b)) by {
        assert forall|k: int| 0 <= k < b - a implies x.subrange(o + a, o + b)[k] == s.subrange(a, b)[k] by {
            assert(x[o + (a + k)] == s[a + k]);
        }
    }
}

proof fn lemma_line_shift(x: Seq<char>, s: Seq<char>, o: int, i: int, j: int)
    requires
        agree(x, s, o, i, j),
    ensures
        line_assignment(x, o + i, o + j) == line_assignment(s, i, j),
{
    if j > i {
        assert(x[o + (j - 1)] == s[j - 1]);
    }
    let ce = content_end(s, i, j);
    assert(content_end(x, o + i, o + j) == o + ce);
    lemma_find_shift(x, s, o, '=', i, ce);
    let eq = find_from(s, '=', i, ce);
    crate::io::backend::isis::label::lemma_find_from_bounds(s, '=', i, ce);
    if eq < ce {
        lemma_trimmed_shift(x, s, o, i, eq);
        lemma_trimmed_shift(x, s, o, eq + 1, ce);
    }
}

/// The assignments of `x` from `o + i` on are those of `s` from `i` on
/// when `x` ends with `s` from offset `o`.
proof fn lemma_assignments_shift(x: Seq<char>, s: Seq<char>, o: int, i: int, m: Map<Seq<char>, Seq<char>>)
    requires
        0 <= o,
        0 <= i <= s.len(),
        x.len() == o + s.len(),
        forall|k: int| 0 <= k < s.len() ==> #[trigger] x[o + k] == s[k],
    ensures
        assignments_from(x, o + i, m) == assignments_from(s, i, m),
    decreases s.len() - i,
{
    lemma_find_shift(x, s, o, '\n', i, s.len() as int);
    let end = find_from(s, '\n', i, s.len() as int);
    crate::io::backend::isis::label::lemma_find_from_bounds(s, '\n', i, s.len() as int);
    lemma_line_shift(x, s, o, i, end);
    if end < s.len() {
        lemma_assignments_shift(x, s, o, end + 1, match line_assignment(s, i, end) {
            Some(kv) => m.insert(kv.0, kv.1),
            None => m,
        });
    }
}

/// Lines joined, each followed by a newline.
pub open spec fn join_lines(ls: Seq<Seq<char>>) -> Seq<char>
    decreases ls.len(),
{
    if ls.len() == 0 {
        Seq::empty()
    } else {
        ls[0] + seq!['\n'] + join_lines(ls.drop_first())
    }
}

/// The assignments of lines, in order, applied to `m`.
pub open spec fn fold_lines(ls: Seq<Seq<char>>, m: Map<Seq<char>, Seq<char>>) -> Map<Seq<char>, Seq<char>>
    decreases ls.len(),
{
    if ls.len() == 0 {
        m
    } else {
        let m2 = match line_assignment(ls[0], 0, ls[0].len() as int) {
            Some(kv) => m.insert(kv.0, kv.1),
            None => m,
        };
        fold_lines(ls.drop_first(), m2)
    }
}

/// The assignments of joined lines that hold no newline are their
/// assignments one by one.
pub proof fn lemma_assignments_lines(ls: Seq<Seq<char>>, m: Map<Seq<char>, Seq<char>>)
    requires
        forall|i: int, k: int| 0 <= i < ls.len() && 0 <= k < ls[i].len() ==> #[trigger] ls[i][k] != '\n',
    ensures
        assignments_from(join_lines(ls), 0, m) == fold_lines(ls, m),
    decreases ls.len(),
{
    let x = join_lines(ls);
    if ls.len() == 0 {
        assert(find_from(x, '\n', 0, 0) == 0);
        assert(line_assignment(x, 0, 0) is None) by {
            assert(content_end(x, 0, 0) == 0);
        }
    } else {
        let l = ls[0];
        let rest = join_lines(ls.drop_first());
        let o: int = l.len() as int + 1;
        assert(x =~= l + seq!['\n'] + rest);
        // The first line.
        assert forall|k: int| 0 <= k < l.len() implies x[k] != '\n' by {
            assert(ls[0][k] != '\n');
        }
        assert(find_from(x, '\n', 0, x.len() as int) == l.len()) by {
            lemma_first_newline(x, 0, l.len() as int);
        }
        assert(agree(x, l, 0, 0, l.len() as int));
        lemma_line_shift(x, l, 0, 0, l.len() as int);
        let m2 = match line_assignment(l, 0, l.len() as int) {
            Some(kv) => m.insert(kv.0, kv.1),
            None => m,
        };
        assert forall|i: int, k: int|
            0 <= i < ls.drop_first().len() && 0 <= k < ls.drop_first()[i].len() implies #[trigger] ls.drop_first()[i][k]
            != '\n' by {
            assert(ls.drop_first()[i] == ls[i + 1]);
        }
        lemma_assignments_lines(ls.drop_first(), m2);
        if rest.len() > 0 {
            assert forall|k: int| 0 <= k < rest.len() implies #[trigger] x[o + k] == rest[k] by {}
            lemma_assignments_shift(x, rest, o, 0, m2);
        } else {
            assert(assignments_from(x, o, m2) == m2) by {
                assert(find_from(x, '\n', o, x.len() as int) == o);
                assert(content_end(x, o, o) == o);
            }
            assert(assignments_from(rest, 0, m2) == m2) by {
                assert(find_from(rest, '\n', 0, 0) == 0);
                assert(content_end(rest, 0, 0) == 0);
            }
        }
    }
}

proof fn lemma_first_newline(x: Seq<char>, i: int, p: int)
    requires
        0 <= i <= p < x.len(),
        x[p] == '\n',
        forall|k: int| i <= k < p ==> x[k] != '\n',
    ensures
        find_from(x, '\n', i, x.len() as int) == p,
    decreases p - i,
{
    if i < p {
        lemma_first_newline(x, i + 1, p);
    }
}


/// `n` spaces.
pub open spec fn spaces(n: nat) -> Seq<char> {
    Seq::new(n, |i: int| ' ')
}

proof fn lemma_find_at(s: Seq<char>, c: char, i: int, p: int, end: int)
    requires
        0 <= i <= p < end <= s.len(),
        s[p] == c,
        forall|k: int| i <= k < p ==> s[k] != c,
    ensures
        find_from(s, c, i, end) == p,
    decreases p - i,
{
    if i < p {
        lemma_find_at(s, c, i + 1, p, end);
    }
}

proof fn lemma_find_none(s: Seq<char>, c: char, i: int, end: int)
    requires
        0 <= i <= end <= s.len(),
        forall|k: int| i <= k < end ==> s[k] != c,
    ensures
        find_from(s, c, i, end) == end,
    decreases end - i,
{
    if i < end {
        lemma_find_none(s, c, i + 1, end);
    }
}

proof fn lemma_skip_to(s: Seq<char>, i: int, p: int, j: int)
    requires
        0 <= i <= p <= j <= s.len(),
        forall|k: int| i <= k < p ==> is_space(#[trigger] s[k]),
        p < j ==> !is_space(s[p]),
    ensures
        skip_space(s, i, j) == p,
    decreases p - i,
{
    if i < p {
        lemma_skip_to(s, i + 1, p, j);
    }
}

/// A `key = value` line: `n` spaces, the key, ` = `, the value.
pub open spec fn kv_line(n: nat, key: Seq<char>, v: Seq<char>) -> Seq<char> {
    spaces(n) + key + seq![' ', '=', ' '] + v
}

/// Whether `v` neither starts nor ends with white space.
pub open spec fn ends_plain(v: Seq<char>) -> bool {
    v.len() == 0 || (!is_space(v[0]) && !is_space(v.last()))
}

/// Whether `k` can stand as a key: not empty, no `=`, no white space at
/// its ends.
pub open spec fn key_plain(k: Seq<char>) -> bool {
    &&& k.len() > 0
    &&& ends_plain(k)
    &&& forall|i: int| 0 <= i < k.len() ==> #[trigger] k[i] != '='
}

proof fn lemma_kv_line(n: nat, key: Seq<char>, v: Seq<char>)
    requires
        key_plain(key),
        ends_plain(v),
    ensures
        line_assignment(kv_line(n, key, v), 0, kv_line(n, key, v).len() as int) == Some((key, unquote(v))),
{
    let l = kv_line(n, key, v);
    let len = l.len() as int;
    let eq: int = (n + key.len() + 1) as int;
    assert(is_space(' '));
    assert(!is_space('='));
    assert(l[eq] == '=');
    assert(l[eq - 1] == ' ');
    assert(l[eq + 1] == ' ');
    assert(content_end(l, 0, len) == len) by {
        if v.len() > 0 {
            assert(l[len - 1] == v.last());
        } else {
            assert(l[len - 1] == ' ');
        }
    }
    assert forall|k: int| 0 <= k < eq implies l[k] != '=' by {
        if k < n {
            assert(l[k] == ' ');
        } else if k < n + key.len() {
            assert(l[k] == key[k - n]);
        } else {
            assert(l[k] == ' ');
        }
    }
    lemma_find_at(l, '=', 0, eq, len);
    // The key.
    assert forall|k: int| 0 <= k < n implies is_space(#[trigger] l[k]) by {
        assert(l[k] == ' ');
    }
    assert(l[n as int] == key[0]);
    lemma_skip_to(l, 0, n as int, eq);
    assert(l[eq - 2] == key.last());
    assert(!is_space(key.last()));
    assert(skip_space_back(l, n as int, eq - 1) == eq - 1);
    assert(skip_space_back(l, n as int, eq) == eq - 1);
    assert(l.subrange(n as int, eq - 1) =~= key);
    assert(trimmed(l, 0, eq) == key);
    // The value.
    if v.len() == 0 {
        assert(len == eq + 2);
        lemma_skip_to(l, eq + 1, len, len);
        assert(l.subrange(len, len) =~= v);
    } else {
        assert(l[eq + 2] == v[0]);
        lemma_skip_to(l, eq + 1, eq + 2, len);
        assert(l[len - 1] == v.last());
        assert(skip_space_back(l, eq + 2, len) == len);
        assert(l.subrange(eq + 2, len) =~= v);
    }
    assert(trimmed(l, eq + 1, len) == v);
}

proof fn lemma_plain_line(l: Seq<char>)
    requires
        forall|k: int| 0 <= k < l.len() ==> #[trigger] l[k] != '=',
    ensures
        line_assignment(l, 0, l.len() as int) is None,
{
    let ce = content_end(l, 0, l.len() as int);
    lemma_find_none(l, '=', 0, ce);
}

proof fn lemma_join_concat(a: Seq<Seq<char>>, b: Seq<Seq<char>>)
    ensures
        join_lines(a + b) == join_lines(a) + join_lines(b),
    decreases a.len(),
{
    if a.len() == 0 {
        assert(a + b =~= b);
        assert(join_lines(a) + join_lines(b) =~= join_lines(b));
    } else {
        lemma_join_concat(a.drop_first(), b);
        assert((a + b).drop_first() =~= a.drop_first() + b);
        assert(join_lines(a + b) =~= join_lines(a) + join_lines(b));
    }
}

proof fn lemma_fold_concat(a: Seq<Seq<char>>, b: Seq<Seq<char>>, m: Map<Seq<char>, Seq<char>>)
    ensures
        fold_lines(a + b, m) == fold_lines(b, fold_lines(a, m)),
    decreases a.len(),
{
    if a.len() == 0 {
        assert(a + b =~= b);
    } else {
        assert((a + b).drop_first() =~= a.drop_first() + b);
        assert((a + b)[0] == a[0]);
        let m2 = match line_assignment(a[0], 0, a[0].len() as int) {
            Some(kv) => m.insert(kv.0, kv.1),
            None => m,
        };
        lemma_fold_concat(a.drop_first(), b, m2);
    }
}


/// What a line adds to the assignments `m`.
pub open spec fn line_step(l: Seq<char>, m: Map<Seq<char>, Seq<char>>) -> Map<Seq<char>, Seq<char>> {
    match line_assignment(l, 0, l.len() as int) {
        Some(kv) => m.insert(kv.0, kv.1),
        None => m,
    }
}

proof fn lemma_join_push(a: Seq<Seq<char>>, x: Seq<char>)
    ensures
        join_lines(a.push(x)) == join_lines(a) + x + seq!['\n'],
{
    lemma_join_concat(a, seq![x]);
    assert(a.push(x) =~= a + seq![x]);
    let one = seq![x];
    assert(one[0] == x);
    assert(one.drop_first() =~= Seq::<Seq<char>>::empty());
    assert(join_lines(one.drop_first()) == Seq::<char>::empty());
    assert(join_lines(seq![x]) =~= x + seq!['\n']);
    assert(join_lines(a) + join_lines(seq![x]) =~= join_lines(a) + x + seq!['\n']);
}

proof fn lemma_fold_push(a: Seq<Seq<char>>, x: Seq<char>, m: Map<Seq<char>, Seq<char>>)
    ensures
        fold_lines(a.push(x), m) == line_step(x, fold_lines(a, m)),
{
    lemma_fold_concat(a, seq![x], m);
    assert(a.push(x) =~= a + seq![x]);
    let one = seq![x];
    assert(one[0] == x);
    assert(one.drop_first() =~= Seq::<Seq<char>>::empty());
    let m2 = fold_lines(a, m);
    assert(fold_lines(one.drop_first(), line_step(x, m2)) == line_step(x, m2));
    assert(fold_lines(one, m2) == line_step(x, m2));
}

/// Whether no line holds a newline.
pub open spec fn no_newlines(ls: Seq<Seq<char>>) -> bool {
    forall|i: int, k: int| 0 <= i < ls.len() && 0 <= k < ls[i].len() ==> #[trigger] ls[i][k] != '\n'
}

/// Whether `v` holds no newline.
pub open spec fn one_line(v: Seq<char>) -> bool {
    forall|k: int| 0 <= k < v.len() ==> #[trigger] v[k] != '\n'
}

proof fn lemma_no_newlines_push(a: Seq<Seq<char>>, x: Seq<char>)
    requires
        no_newlines(a),
        one_line(x),
    ensures
        no_newlines(a.push(x)),
{
    assert forall|i: int, k: int| 0 <= i < a.push(x).len() && 0 <= k < a.push(x)[i].len() implies #[trigger] a.push(
        x,
    )[i][k] != '\n' by {
        if i < a.len() {
            assert(a.push(x)[i] == a[i]);
        }
    }
}

/// `v` in double quotes.
pub open spec fn quoted(v: Seq<char>) -> Seq<char> {
    seq!['"'] + v + seq!['"']
}


/// The lines of the fixed part of a label.
pub open spec fn base_lines(w: Seq<char>, h: Seq<char>, b: Seq<char>, t: Seq<char>, c: Seq<char>) -> Seq<Seq<char>> {
    Seq::<Seq<char>>::empty().push(kv_line(0, "Object"@, "IsisCube"@)).push(kv_line(2, "Object"@, "Core"@)).push(
        kv_line(4, "Group"@, "Dimensions"@),
    ).push(kv_line(6, "Samples"@, w)).push(kv_line(6, "Lines"@, h)).push(kv_line(6, "Bands"@, b)).push(
        spaces(4) + "End_Group"@,
    ).push(kv_line(4, "Group"@, "Pixels"@)).push(kv_line(6, "Type"@, t)).push(kv_line(6, "ByteOrder"@, "Lsb"@)).push(
        kv_line(6, "Compression"@, quoted(c)),
    ).push(spaces(4) + "End_Group"@)
}

/// `ls` with the line of optional field `key`, when `m` has it.
pub open spec fn with_extra_line(ls: Seq<Seq<char>>, m: Map<Seq<char>, Seq<char>>, key: Seq<char>) -> Seq<
    Seq<char>,
> {
    if m.contains_key(key) {
        ls.push(kv_line(10, key, quoted(m[key])))
    } else {
        ls
    }
}

/// The compression a label records for fields `m`.
pub open spec fn written_compression(m: Map<Seq<char>, Seq<char>>) -> Seq<char> {
    if m.contains_key("compression"@) {
        m["compression"@]
    } else {
        "None"@
    }
}

/// The lines of the label of fields `m` ([`label_text`]).
pub open spec fn label_lines(
    m: Map<Seq<char>, Seq<char>>,
    w: Seq<char>,
    h: Seq<char>,
    b: Seq<char>,
    t: Seq<char>,
) -> Seq<Seq<char>> {
    with_extra_line(
        with_extra_line(
            with_extra_line(
                with_extra_line(base_lines(w, h, b, t, written_compression(m)), m, "tileWidth"@),
                m,
                "tileHeight"@,
            ),
            m,
            "predictor"@,
        ),
        m,
        "container"@,
    ).push(spaces(2) + "End_Object"@).push("End_Object"@).push("End"@)
}


proof fn lemma_extra_join(ls: Seq<Seq<char>>, m: Map<Seq<char>, Seq<char>>, key: Seq<char>)
    ensures
        join_lines(with_extra_line(ls, m, key)) == join_lines(ls) + extra_line(m, key),
{
    if m.contains_key(key) {
        lemma_join_push(ls, kv_line(10, key, quoted(m[key])));
        reveal_strlit("          ");
        reveal_strlit(" = \"");
        reveal_strlit("\"");
        reveal_strlit("\n");
        assert(spaces(10) =~= "          "@);
        assert(join_lines(ls) + kv_line(10, key, quoted(m[key])) + seq!['\n'] =~= join_lines(ls) + extra_line(
            m,
            key,
        ));
    } else {
        assert(join_lines(ls) + extra_line(m, key) =~= join_lines(ls));
    }
}

/// The text of each line of a label, newline included, as the label
/// text writes it.
proof fn lemma_piece_1()
    ensures
        kv_line(0, "Object"@, "IsisCube"@) + seq!['\n'] == "Object = IsisCube\n"@,
{
    reveal_strlit("Object");
    reveal_strlit("IsisCube");
    reveal_strlit("Object = IsisCube\n");
    assert(kv_line(0, "Object"@, "IsisCube"@) + seq!['\n'] =~= "Object = IsisCube\n"@);
}

proof fn lemma_piece_2()
    ensures
        kv_line(2, "Object"@, "Core"@) + seq!['\n'] == "  Object = Core\n"@,
{
    reveal_strlit("Object");
    reveal_strlit("Core");
    reveal_strlit("  Object = Core\n");
    assert(kv_line(2, "Object"@, "Core"@) + seq!['\n'] =~= "  Object = Core\n"@);
}

proof fn lemma_piece_3()
    ensures
        kv_line(4, "Group"@, "Dimensions"@) + seq!['\n'] == "    Group = Dimensions\n"@,
{
    reveal_strlit("Group");
    reveal_strlit("Dimensions");
    reveal_strlit("    Group = Dimensions\n");
    assert(kv_line(4, "Group"@, "Dimensions"@) + seq!['\n'] =~= "    Group = Dimensions\n"@);
}

proof fn lemma_piece_7()
    ensures
        spaces(4) + "End_Group"@ + seq!['\n'] == "    End_Group\n"@,
{
    reveal_strlit("End_Group");
    reveal_strlit("    End_Group\n");
    assert(spaces(4) + "End_Group"@ + seq!['\n'] =~= "    End_Group\n"@);
}

proof fn lemma_piece_8()
    ensures
        kv_line(4, "Group"@, "Pixels"@) + seq!['\n'] == "    Group = Pixels\n"@,
{
    reveal_strlit("Group");
    reveal_strlit("Pixels");
    reveal_strlit("    Group = Pixels\n");
    assert(kv_line(4, "Group"@, "Pixels"@) + seq!['\n'] =~= "    Group = Pixels\n"@);
}

proof fn lemma_piece_10()
    ensures
        kv_line(6, "ByteOrder"@, "Lsb"@) + seq!['\n'] == "      ByteOrder = Lsb\n"@,
{
    reveal_strlit("ByteOrder");
    reveal_strlit("Lsb");
    reveal_strlit("      ByteOrder = Lsb\n");
    assert(kv_line(6, "ByteOrder"@, "Lsb"@) + seq!['\n'] =~= "      ByteOrder = Lsb\n"@);
}

proof fn lemma_piece_13()
    ensures
        spaces(2) + "End_Object"@ + seq!['\n'] == "  End_Object\n"@,
{
    reveal_strlit("End_Object");
    reveal_strlit("  End_Object\n");
    assert(spaces(2) + "End_Object"@ + seq!['\n'] =~= "  End_Object\n"@);
}

proof fn lemma_piece_14()
    ensures
        "End_Object"@ + seq!['\n'] == "End_Object\n"@,
{
    reveal_strlit("End_Object");
    reveal_strlit("End_Object\n");
    assert("End_Object"@ + seq!['\n'] =~= "End_Object\n"@);
}

proof fn lemma_piece_15()
    ensures
        "End"@ + seq!['\n'] == "End\n"@,
{
    reveal_strlit("End");
    reveal_strlit("End\n");
    assert("End"@ + seq!['\n'] =~= "End\n"@);
}

proof fn lemma_piece_4(w: Seq<char>)
    ensures
        kv_line(6, "Samples"@, w) + seq!['\n'] == "      Samples = "@ + w + "\n"@,
{
    reveal_strlit("Samples");
    reveal_strlit("      Samples = ");
    reveal_strlit("\n");
    assert(kv_line(6, "Samples"@, w) + seq!['\n'] =~= "      Samples = "@ + w + "\n"@);
}

proof fn lemma_piece_5(h: Seq<char>)
    ensures
        kv_line(6, "Lines"@, h) + seq!['\n'] == "      Lines = "@ + h + "\n"@,
{
    reveal_strlit("Lines");
    reveal_strlit("      Lines = ");
    reveal_strlit("\n");
    assert(kv_line(6, "Lines"@, h) + seq!['\n'] =~= "      Lines = "@ + h + "\n"@);
}

proof fn lemma_piece_6(b: Seq<char>)
    ensures
        kv_line(6, "Bands"@, b) + seq!['\n'] == "      Bands = "@ + b + "\n"@,
{
    reveal_strlit("Bands");
    reveal_strlit("      Bands = ");
    reveal_strlit("\n");
    assert(kv_line(6, "Bands"@, b) + seq!['\n'] =~= "      Bands = "@ + b + "\n"@);
}

proof fn lemma_piece_9(t: Seq<char>)
    ensures
        kv_line(6, "Type"@, t) + seq!['\n'] == "      Type = "@ + t + "\n"@,
{
    reveal_strlit("Type");
    reveal_strlit("      Type = ");
    reveal_strlit("\n");
    assert(kv_line(6, "Type"@, t) + seq!['\n'] =~= "      Type = "@ + t + "\n"@);
}

proof fn lemma_piece_11(c: Seq<char>)
    ensures
        kv_line(6, "Compression"@, quoted(c)) + seq!['\n'] == "      Compression = \""@ + c + "\""@ + "\n"@,
{
    reveal_strlit("Compression");
    reveal_strlit("      Compression = \"");
    reveal_strlit("\"");
    reveal_strlit("\n");
    assert(kv_line(6, "Compression"@, quoted(c)) + seq!['\n'] =~= "      Compression = \""@ + c + "\""@ + "\n"@);
}

/// The text of a label is its lines joined.
#[verifier::rlimit(50)]
proof fn lemma_label_text_lines(m: Map<Seq<char>, Seq<char>>, w: Seq<char>, h: Seq<char>, b: Seq<char>, t: Seq<char>)
    ensures
        label_text(m, w, h, b, t) == join_lines(label_lines(m, w, h, b, t)),
{
    let c = written_compression(m);
    let e = Seq::<Seq<char>>::empty();
    assert(join_lines(e) == Seq::<char>::empty());
    let l1 = e.push(kv_line(0, "Object"@, "IsisCube"@));
    let p1 = "Object = IsisCube\n"@;
    assert(join_lines(l1) == p1) by {
        lemma_join_push(e, kv_line(0, "Object"@, "IsisCube"@));
        lemma_piece_1();
        assert(join_lines(l1) =~= p1);
    }
    let l2 = l1.push(kv_line(2, "Object"@, "Core"@));
    let p2 = p1 + "  Object = Core\n"@;
    assert(join_lines(l2) == p2) by {
        lemma_join_push(l1, kv_line(2, "Object"@, "Core"@));
        lemma_piece_2();
        assert(join_lines(l2) =~= p2);
    }
    let l3 = l2.push(kv_line(4, "Group"@, "Dimensions"@));
    let p3 = p2 + "    Group = Dimensions\n"@;
    assert(join_lines(l3) == p3) by {
        lemma_join_push(l2, kv_line(4, "Group"@, "Dimensions"@));
        lemma_piece_3();
        assert(join_lines(l3) =~= p3);
    }
    let l4 = l3.push(kv_line(6, "Samples"@, w));
    let p4 = p3 + "      Samples = "@ + w + "\n"@;
    assert(join_lines(l4) == p4) by {
        lemma_join_push(l3, kv_line(6, "Samples"@, w));
        lemma_piece_4(w);
        assert(join_lines(l4) == p3 + (kv_line(6, "Samples"@, w) + seq!['\n']));
        assert(p3 + ("      Samples = "@ + w + "\n"@) =~= p4);
        assert(join_lines(l4) =~= p4);
    }
    let l5 = l4.push(kv_line(6, "Lines"@, h));
    let p5 = p4 + "      Lines = "@ + h + "\n"@;
    assert(join_lines(l5) == p5) by {
        lemma_join_push(l4, kv_line(6, "Lines"@, h));
        lemma_piece_5(h);
        assert(join_lines(l5) == p4 + (kv_line(6, "Lines"@, h) + seq!['\n']));
        assert(p4 + ("      Lines = "@ + h + "\n"@) =~= p5);
        assert(join_lines(l5) =~= p5);
    }
    let l6 = l5.push(kv_line(6, "Bands"@, b));
    let p6 = p5 + "      Bands = "@ + b + "\n"@;
    assert(join_lines(l6) == p6) by {
        lemma_join_push(l5, kv_line(6, "Bands"@, b));
        lemma_piece_6(b);
        assert(join_lines(l6) == p5 + (kv_line(6, "Bands"@, b) + seq!['\n']));
        assert(p5 + ("      Bands = "@ + b + "\n"@) =~= p6);
        assert(join_lines(l6) =~= p6);
    }
    let l7 = l6.push(spaces(4) + "End_Group"@);
    let p7 = p6 + "    End_Group\n"@;
    assert(join_lines(l7) == p7) by {
        lemma_join_push(l6, spaces(4) + "End_Group"@);
        lemma_piece_7();
        assert(join_lines(l7) =~= p7);
    }
    let l8 = l7.push(kv_line(4, "Group"@, "Pixels"@));
    let p8 = p7 + "    Group = Pixels\n"@;
    assert(join_lines(l8) == p8) by {
        lemma_join_push(l7, kv_line(4, "Group"@, "Pixels"@));
        lemma_piece_8();
        assert(join_lines(l8) =~= p8);
    }
    let l9 = l8.push(kv_line(6, "Type"@, t));
    let p9 = p8 + "      Type = "@ + t + "\n"@;
    assert(join_lines(l9) == p9) by {
        lemma_join_push(l8, kv_line(6, "Type"@, t));
        lemma_piece_9(t);
        assert(join_lines(l9) == p8 + (kv_line(6, "Type"@, t) + seq!['\n']));
        assert(p8 + ("      Type = "@ + t + "\n"@) =~= p9);
        assert(join_lines(l9) =~= p9);
    }
    let l10 = l9.push(kv_line(6, "ByteOrder"@, "Lsb"@));
    let p10 = p9 + "      ByteOrder = Lsb\n"@;
    assert(join_lines(l10) == p10) by {
        lemma_join_push(l9, kv_line(6, "ByteOrder"@, "Lsb"@));
        lemma_piece_10();
        assert(join_lines(l10) =~= p10);
    }
    let l11 = l10.push(kv_line(6, "Compression"@, quoted(c)));
    let p11 = p10 + "      Compression = \""@ + c + "\""@ + "\n"@;
    assert(join_lines(l11) == p11) by {
        lemma_join_push(l10, kv_line(6, "Compression"@, quoted(c)));
        lemma_piece_11(c);
        assert(join_lines(l11) == p10 + (kv_line(6, "Compression"@, quoted(c)) + seq!['\n']));
        assert(p10 + ("      Compression = \""@ + c + "\""@ + "\n"@) =~= p11);
        assert(join_lines(l11) =~= p11);
    }
    let l12 = l11.push(spaces(4) + "End_Group"@);
    let p12 = p11 + "    End_Group\n"@;
    assert(join_lines(l12) == p12) by {
        lemma_join_push(l11, spaces(4) + "End_Group"@);
        lemma_piece_7();
        assert(join_lines(l12) =~= p12);
    }
    assert(l12 == base_lines(w, h, b, t, c));
    let x1 = with_extra_line(l12, m, "tileWidth"@);
    lemma_extra_join(l12, m, "tileWidth"@);
    let x2 = with_extra_line(x1, m, "tileHeight"@);
    lemma_extra_join(x1, m, "tileHeight"@);
    let x3 = with_extra_line(x2, m, "predictor"@);
    lemma_extra_join(x2, m, "predictor"@);
    let x4 = with_extra_line(x3, m, "container"@);
    lemma_extra_join(x3, m, "container"@);
    let q = p12 + extra_line(m, "tileWidth"@) + extra_line(m, "tileHeight"@) + extra_line(m, "predictor"@)
        + extra_line(m, "container"@);
    assert(join_lines(x4) == q);
    let y1 = x4.push(spaces(2) + "End_Object"@);
    lemma_join_push(x4, spaces(2) + "End_Object"@);
    lemma_piece_13();
    assert(join_lines(y1) =~= q + "  End_Object\n"@);
    let y2 = y1.push("End_Object"@);
    lemma_join_push(y1, "End_Object"@);
    lemma_piece_14();
    assert(join_lines(y2) =~= q + "  End_Object\n"@ + "End_Object\n"@);
    let y3 = y2.push("End"@);
    lemma_join_push(y2, "End"@);
    lemma_piece_15();
    assert(join_lines(y3) =~= q + "  End_Object\n"@ + "End_Object\n"@ + "End\n"@);
    assert(y3 == label_lines(m, w, h, b, t));
}

/// The keys a label writes are plain keys without newlines.
proof fn lemma_label_keys()
    ensures
        key_plain("Object"@) && one_line("Object"@),
        key_plain("Group"@) && one_line("Group"@),
        key_plain("Samples"@) && one_line("Samples"@),
        key_plain("Lines"@) && one_line("Lines"@),
        key_plain("Bands"@) && one_line("Bands"@),
        key_plain("Type"@) && one_line("Type"@),
        key_plain("ByteOrder"@) && one_line("ByteOrder"@),
        key_plain("Compression"@) && one_line("Compression"@),
        key_plain("tileWidth"@) && one_line("tileWidth"@),
        key_plain("tileHeight"@) && one_line("tileHeight"@),
        key_plain("predictor"@) && one_line("predictor"@),
        key_plain("container"@) && one_line("container"@),
{
    reveal_strlit("Object");
    reveal_strlit("Group");
    reveal_strlit("Samples");
    reveal_strlit("Lines");
    reveal_strlit("Bands");
    reveal_strlit("Type");
    reveal_strlit("ByteOrder");
    reveal_strlit("Compression");
    reveal_strlit("tileWidth");
    reveal_strlit("tileHeight");
    reveal_strlit("predictor");
    reveal_strlit("container");
    assert(!is_space('=')) by {
        assert('=' as u32 == 0x3D);
    }
    assert(key_plain("Object"@) && one_line("Object"@)) by {
        assert(!is_space("Object"@[0]) && !is_space("Object"@.last()));
    }
    assert(key_plain("Group"@) && one_line("Group"@)) by {
        assert(!is_space("Group"@[0]) && !is_space("Group"@.last()));
    }
    assert(key_plain("Samples"@) && one_line("Samples"@)) by {
        assert(!is_space("Samples"@[0]) && !is_space("Samples"@.last()));
    }
    assert(key_plain("Lines"@) && one_line("Lines"@)) by {
        assert(!is_space("Lines"@[0]) && !is_space("Lines"@.last()));
    }
    assert(key_plain("Bands"@) && one_line("Bands"@)) by {
        assert(!is_space("Bands"@[0]) && !is_space("Bands"@.last()));
    }
    assert(key_plain("Type"@) && one_line("Type"@)) by {
        assert(!is_space("Type"@[0]) && !is_space("Type"@.last()));
    }
    assert(key_plain("ByteOrder"@) && one_line("ByteOrder"@)) by {
        assert(!is_space("ByteOrder"@[0]) && !is_space("ByteOrder"@.last()));
    }
    assert(key_plain("Compression"@) && one_line("Compression"@)) by {
        assert(!is_space("Compression"@[0]) && !is_space("Compression"@.last()));
    }
    assert(key_plain("tileWidth"@) && one_line("tileWidth"@)) by {
        assert(!is_space("tileWidth"@[0]) && !is_space("tileWidth"@.last()));
    }
    assert(key_plain("tileHeight"@) && one_line("tileHeight"@)) by {
        assert(!is_space("tileHeight"@[0]) && !is_space("tileHeight"@.last()));
    }
    assert(key_plain("predictor"@) && one_line("predictor"@)) by {
        assert(!is_space("predictor"@[0]) && !is_space("predictor"@.last()));
    }
    assert(key_plain("container"@) && one_line("container"@)) by {
        assert(!is_space("container"@[0]) && !is_space("container"@.last()));
    }
}

/// The fixed values a label writes stand for themselves.
proof fn lemma_label_values()
    ensures
        ends_plain("IsisCube"@) && one_line("IsisCube"@) && unquote("IsisCube"@) == "IsisCube"@,
        ends_plain("Core"@) && one_line("Core"@) && unquote("Core"@) == "Core"@,
        ends_plain("Dimensions"@) && one_line("Dimensions"@) && unquote("Dimensions"@) == "Dimensions"@,
        ends_plain("Pixels"@) && one_line("Pixels"@) && unquote("Pixels"@) == "Pixels"@,
        ends_plain("Lsb"@) && one_line("Lsb"@) && unquote("Lsb"@) == "Lsb"@,
        ends_plain("UnsignedByte"@) && one_line("UnsignedByte"@) && unquote("UnsignedByte"@) == "UnsignedByte"@,
        ends_plain("UnsignedWord"@) && one_line("UnsignedWord"@) && unquote("UnsignedWord"@) == "UnsignedWord"@,
        ends_plain("UnsignedInteger"@) && one_line("UnsignedInteger"@) && unquote("UnsignedInteger"@) == "UnsignedInteger"@,
        ends_plain("Real"@) && one_line("Real"@) && unquote("Real"@) == "Real"@,
        ends_plain("Double"@) && one_line("Double"@) && unquote("Double"@) == "Double"@,
{
    reveal_strlit("IsisCube");
    reveal_strlit("Core");
    reveal_strlit("Dimensions");
    reveal_strlit("Pixels");
    reveal_strlit("Lsb");
    reveal_strlit("UnsignedByte");
    reveal_strlit("UnsignedWord");
    reveal_strlit("UnsignedInteger");
    reveal_strlit("Real");
    reveal_strlit("Double");
    assert(ends_plain("IsisCube"@) && one_line("IsisCube"@) && unquote("IsisCube"@) == "IsisCube"@) by {
        assert(!is_space("IsisCube"@[0]) && !is_space("IsisCube"@.last()));
    }
    assert(ends_plain("Core"@) && one_line("Core"@) && unquote("Core"@) == "Core"@) by {
        assert(!is_space("Core"@[0]) && !is_space("Core"@.last()));
    }
    assert(ends_plain("Dimensions"@) && one_line("Dimensions"@) && unquote("Dimensions"@) == "Dimensions"@) by {
        assert(!is_space("Dimensions"@[0]) && !is_space("Dimensions"@.last()));
    }
    assert(ends_plain("Pixels"@) && one_line("Pixels"@) && unquote("Pixels"@) == "Pixels"@) by {
        assert(!is_space("Pixels"@[0]) && !is_space("Pixels"@.last()));
    }
    assert(ends_plain("Lsb"@) && one_line("Lsb"@) && unquote("Lsb"@) == "Lsb"@) by {
        assert(!is_space("Lsb"@[0]) && !is_space("Lsb"@.last()));
    }
    assert(ends_plain("UnsignedByte"@) && one_line("UnsignedByte"@) && unquote("UnsignedByte"@) == "UnsignedByte"@) by {
        assert(!is_space("UnsignedByte"@[0]) && !is_space("UnsignedByte"@.last()));
    }
    assert(ends_plain("UnsignedWord"@) && one_line("UnsignedWord"@) && unquote("UnsignedWord"@) == "UnsignedWord"@) by {
        assert(!is_space("UnsignedWord"@[0]) && !is_space("UnsignedWord"@.last()));
    }
    assert(ends_plain("UnsignedInteger"@) && one_line("UnsignedInteger"@) && unquote("UnsignedInteger"@) == "UnsignedInteger"@) by {
        assert(!is_space("UnsignedInteger"@[0]) && !is_space("UnsignedInteger"@.last()));
    }
    assert(ends_plain("Real"@) && one_line("Real"@) && unquote("Real"@) == "Real"@) by {
        assert(!is_space("Real"@[0]) && !is_space("Real"@.last()));
    }
    assert(ends_plain("Double"@) && one_line("Double"@) && unquote("Double"@) == "Double"@) by {
        assert(!is_space("Double"@[0]) && !is_space("Double"@.last()));
    }
}

proof fn lemma_quoted(c: Seq<char>)
    ensures
        ends_plain(quoted(c)),
        unquote(quoted(c)) == c,
        one_line(c) ==> one_line(quoted(c)),
{
    let q = quoted(c);
    assert(q[0] == '"');
    assert(q.last() == '"');
    assert(!is_space('"')) by {
        assert('"' as u32 == 0x22);
    }
    assert(q.subrange(1, q.len() - 1) =~= c);
    if one_line(c) {
        assert forall|k: int| 0 <= k < q.len() implies #[trigger] q[k] != '\n' by {
            if 0 < k < q.len() - 1 {
                assert(q[k] == c[k - 1]);
            }
        }
    }
}

proof fn lemma_kv_line_one_line(n: nat, key: Seq<char>, v: Seq<char>)
    requires
        one_line(key),
        one_line(v),
    ensures
        one_line(kv_line(n, key, v)),
{
    let l = kv_line(n, key, v);
    assert forall|k: int| 0 <= k < l.len() implies #[trigger] l[k] != '\n' by {
        if k < n {
            assert(l[k] == ' ');
        } else if k < n + key.len() {
            assert(l[k] == key[k - n]);
        } else if k < n + key.len() + 3 {
        } else {
            assert(l[k] == v[k - n - key.len() - 3]);
        }
    }
}

proof fn lemma_plain_lines()
    ensures
        line_assignment(spaces(4) + "End_Group"@, 0, (spaces(4) + "End_Group"@).len() as int) is None,
        line_assignment(spaces(2) + "End_Object"@, 0, (spaces(2) + "End_Object"@).len() as int) is None,
        line_assignment("End_Object"@, 0, "End_Object"@.len() as int) is None,
        line_assignment("End"@, 0, "End"@.len() as int) is None,
        one_line(spaces(4) + "End_Group"@),
        one_line(spaces(2) + "End_Object"@),
        one_line("End_Object"@),
        one_line("End"@),
{
    reveal_strlit("End_Group");
    reveal_strlit("End_Object");
    reveal_strlit("End");
    let a = spaces(4) + "End_Group"@;
    let b = spaces(2) + "End_Object"@;
    assert forall|k: int| 0 <= k < a.len() implies #[trigger] a[k] != '=' && a[k] != '\n' by {
        if k < 4 {
            assert(a[k] == ' ');
        } else {
            assert(a[k] == "End_Group"@[k - 4]);
        }
    }
    assert forall|k: int| 0 <= k < b.len() implies #[trigger] b[k] != '=' && b[k] != '\n' by {
        if k < 2 {
            assert(b[k] == ' ');
        } else {
            assert(b[k] == "End_Object"@[k - 2]);
        }
    }
    lemma_plain_line(a);
    lemma_plain_line(b);
    lemma_plain_line("End_Object"@);
    lemma_plain_line("End"@);
}

/// The assignments the lines of a label make.
pub open spec fn written_assignments(
    m: Map<Seq<char>, Seq<char>>,
    w: Seq<char>,
    h: Seq<char>,
    b: Seq<char>,
    t: Seq<char>,
) -> Map<Seq<char>, Seq<char>> {
    let base = Map::<Seq<char>, Seq<char>>::empty().insert("Object"@, "IsisCube"@).insert("Object"@, "Core"@).insert(
        "Group"@,
        "Dimensions"@,
    ).insert("Samples"@, w).insert("Lines"@, h).insert("Bands"@, b).insert("Group"@, "Pixels"@).insert(
        "Type"@,
        t,
    ).insert("ByteOrder"@, "Lsb"@).insert("Compression"@, written_compression(m));
    with_extra(
        with_extra(with_extra(with_extra(base, m, "tileWidth"@), m, "tileHeight"@), m, "predictor"@),
        m,
        "container"@,
    )
}

/// Whether a written value reads back as itself on an unquoted line.
pub open spec fn bare_value_ok(v: Seq<char>) -> bool {
    one_line(v) && ends_plain(v) && unquote(v) == v
}

proof fn lemma_extra_fold(ls: Seq<Seq<char>>, m: Map<Seq<char>, Seq<char>>, key: Seq<char>, acc: Map<Seq<char>, Seq<char>>)
    requires
        fold_lines(ls, Map::empty()) == acc,
        no_newlines(ls),
        key_plain(key),
        one_line(key),
        m.contains_key(key) ==> one_line(m[key]),
    ensures
        fold_lines(with_extra_line(ls, m, key), Map::empty()) == with_extra(acc, m, key),
        no_newlines(with_extra_line(ls, m, key)),
{
    if m.contains_key(key) {
        let v = m[key];
        lemma_fold_push(ls, kv_line(10, key, quoted(v)), Map::empty());
        lemma_quoted(v);
        lemma_kv_line(10, key, quoted(v));
        lemma_kv_line_one_line(10, key, quoted(v));
        lemma_no_newlines_push(ls, kv_line(10, key, quoted(v)));
    }
}

/// The lines of a label assign what they were written from.
proof fn lemma_label_fold(m: Map<Seq<char>, Seq<char>>, w: Seq<char>, h: Seq<char>, b: Seq<char>, t: Seq<char>)
    requires
        bare_value_ok(w),
        bare_value_ok(h),
        bare_value_ok(b),
        bare_value_ok(t),
        m.contains_key("compression"@) ==> one_line(m["compression"@]),
        m.contains_key("tileWidth"@) ==> one_line(m["tileWidth"@]),
        m.contains_key("tileHeight"@) ==> one_line(m["tileHeight"@]),
        m.contains_key("predictor"@) ==> one_line(m["predictor"@]),
        m.contains_key("container"@) ==> one_line(m["container"@]),
    ensures
        fold_lines(label_lines(m, w, h, b, t), Map::empty()) == written_assignments(m, w, h, b, t),
        no_newlines(label_lines(m, w, h, b, t)),
{
    lemma_label_keys();
    lemma_label_values();
    lemma_plain_lines();
    let c = written_compression(m);
    reveal_strlit("None");
    assert(one_line(c)) by {
        if !m.contains_key("compression"@) {
            assert(one_line("None"@));
        }
    }
    lemma_quoted(c);
    let l0 = Seq::<Seq<char>>::empty();
    let a0 = Map::<Seq<char>, Seq<char>>::empty();
    assert(no_newlines(l0));
    let l1 = l0.push(kv_line(0, "Object"@, "IsisCube"@));
    lemma_fold_push(l0, kv_line(0, "Object"@, "IsisCube"@), Map::empty());
    lemma_no_newlines_push(l0, kv_line(0, "Object"@, "IsisCube"@));
    lemma_kv_line(0, "Object"@, "IsisCube"@);
    lemma_kv_line_one_line(0, "Object"@, "IsisCube"@);
    let a1 = a0.insert("Object"@, "IsisCube"@);
    assert(fold_lines(l1, Map::empty()) == a1);
    let l2 = l1.push(kv_line(2, "Object"@, "Core"@));
    lemma_fold_push(l1, kv_line(2, "Object"@, "Core"@), Map::empty());
    lemma_no_newlines_push(l1, kv_line(2, "Object"@, "Core"@));
    lemma_kv_line(2, "Object"@, "Core"@);
    lemma_kv_line_one_line(2, "Object"@, "Core"@);
    let a2 = a1.insert("Object"@, "Core"@);
    assert(fold_lines(l2, Map::empty()) == a2);
    let l3 = l2.push(kv_line(4, "Group"@, "Dimensions"@));
    lemma_fold_push(l2, kv_line(4, "Group"@, "Dimensions"@), Map::empty());
    lemma_no_newlines_push(l2, kv_line(4, "Group"@, "Dimensions"@));
    lemma_kv_line(4, "Group"@, "Dimensions"@);
    lemma_kv_line_one_line(4, "Group"@, "Dimensions"@);
    let a3 = a2.insert("Group"@, "Dimensions"@);
    assert(fold_lines(l3, Map::empty()) == a3);
    let l4 = l3.push(kv_line(6, "Samples"@, w));
    lemma_fold_push(l3, kv_line(6, "Samples"@, w), Map::empty());
    lemma_no_newlines_push(l3, kv_line(6, "Samples"@, w));
    lemma_kv_line(6, "Samples"@, w);
    lemma_kv_line_one_line(6, "Samples"@, w);
    let a4 = a3.insert("Samples"@, w);
    assert(fold_lines(l4, Map::empty()) == a4);
    let l5 = l4.push(kv_line(6, "Lines"@, h));
    lemma_fold_push(l4, kv_line(6, "Lines"@, h), Map::empty());
    lemma_no_newlines_push(l4, kv_line(6, "Lines"@, h));
    lemma_kv_line(6, "Lines"@, h);
    lemma_kv_line_one_line(6, "Lines"@, h);
    let a5 = a4.insert("Lines"@, h);
    assert(fold_lines(l5, Map::empty()) == a5);
    let l6 = l5.push(kv_line(6, "Bands"@, b));
    lemma_fold_push(l5, kv_line(6, "Bands"@, b), Map::empty());
    lemma_no_newlines_push(l5, kv_line(6, "Bands"@, b));
    lemma_kv_line(6, "Bands"@, b);
    lemma_kv_line_one_line(6, "Bands"@, b);
    let a6 = a5.insert("Bands"@, b);
    assert(fold_lines(l6, Map::empty()) == a6);
    let l7 = l6.push(spaces(4) + "End_Group"@);
    lemma_fold_push(l6, spaces(4) + "End_Group"@, Map::empty());
    lemma_no_newlines_push(l6, spaces(4) + "End_Group"@);
    let a7 = a6;
    assert(fold_lines(l7, Map::empty()) == a7);
    let l8 = l7.push(kv_line(4, "Group"@, "Pixels"@));
    lemma_fold_push(l7, kv_line(4, "Group"@, "Pixels"@), Map::empty());
    lemma_no_newlines_push(l7, kv_line(4, "Group"@, "Pixels"@));
    lemma_kv_line(4, "Group"@, "Pixels"@);
    lemma_kv_line_one_line(4, "Group"@, "Pixels"@);
    let a8 = a7.insert("Group"@, "Pixels"@);
    assert(fold_lines(l8, Map::empty()) == a8);
    let l9 = l8.push(kv_line(6, "Type"@, t));
    lemma_fold_push(l8, kv_line(6, "Type"@, t), Map::empty());
    lemma_no_newlines_push(l8, kv_line(6, "Type"@, t));
    lemma_kv_line(6, "Type"@, t);
    lemma_kv_line_one_line(6, "Type"@, t);
    let a9 = a8.insert("Type"@, t);
    assert(fold_lines(l9, Map::empty()) == a9);
    let l10 = l9.push(kv_line(6, "ByteOrder"@, "Lsb"@));
    lemma_fold_push(l9, kv_line(6, "ByteOrder"@, "Lsb"@), Map::empty());
    lemma_no_newlines_push(l9, kv_line(6, "ByteOrder"@, "Lsb"@));
    lemma_kv_line(6, "ByteOrder"@, "Lsb"@);
    lemma_kv_line_one_line(6, "ByteOrder"@, "Lsb"@);
    let a10 = a9.insert("ByteOrder"@, "Lsb"@);
    assert(fold_lines(l10, Map::empty()) == a10);
    let l11 = l10.push(kv_line(6, "Compression"@, quoted(c)));
    lemma_fold_push(l10, kv_line(6, "Compression"@, quoted(c)), Map::empty());
    lemma_no_newlines_push(l10, kv_line(6, "Compression"@, quoted(c)));
    lemma_kv_line(6, "Compression"@, quoted(c));
    lemma_kv_line_one_line(6, "Compression"@, quoted(c));
    let a11 = a10.insert("Compression"@, c);
    assert(fold_lines(l11, Map::empty()) == a11);
    let l12 = l11.push(spaces(4) + "End_Group"@);
    lemma_fold_push(l11, spaces(4) + "End_Group"@, Map::empty());
    lemma_no_newlines_push(l11, spaces(4) + "End_Group"@);
    let a12 = a11;
    assert(fold_lines(l12, Map::empty()) == a12);
    assert(l12 == base_lines(w, h, b, t, c));
    let x1 = with_extra_line(l12, m, "tileWidth"@);
    lemma_extra_fold(l12, m, "tileWidth"@, a12);
    let x2 = with_extra_line(x1, m, "tileHeight"@);
    lemma_extra_fold(x1, m, "tileHeight"@, with_extra(a12, m, "tileWidth"@));
    let x3 = with_extra_line(x2, m, "predictor"@);
    lemma_extra_fold(x2, m, "predictor"@, with_extra(with_extra(a12, m, "tileWidth"@), m, "tileHeight"@));
    let x4 = with_extra_line(x3, m, "container"@);
    lemma_extra_fold(
        x3,
        m,
        "container"@,
        with_extra(with_extra(with_extra(a12, m, "tileWidth"@), m, "tileHeight"@), m, "predictor"@),
    );
    let acc = written_assignments(m, w, h, b, t);
    assert(fold_lines(x4, Map::empty()) == acc);
    let y1 = x4.push(spaces(2) + "End_Object"@);
    lemma_fold_push(x4, spaces(2) + "End_Object"@, Map::empty());
    lemma_no_newlines_push(x4, spaces(2) + "End_Object"@);
    let y2 = y1.push("End_Object"@);
    lemma_fold_push(y1, "End_Object"@, Map::empty());
    lemma_no_newlines_push(y1, "End_Object"@);
    let y3 = y2.push("End"@);
    lemma_fold_push(y2, "End"@, Map::empty());
    lemma_no_newlines_push(y2, "End"@);
    assert(y3 == label_lines(m, w, h, b, t));
}


/// The fields the model read back from a label written from fields `m`
/// holds: the dimensions and pixel type, the compression (`"None"` when
/// unset) and the optional fields `m` has.
pub open spec fn written_fields(m: Map<Seq<char>, Seq<char>>) -> Map<Seq<char>, Seq<char>> {
    let base = Map::<Seq<char>, Seq<char>>::empty().insert("imageWidth"@, m["imageWidth"@]).insert(
        "imageHeight"@,
        m["imageHeight"@],
    ).insert("samplesPerPixel"@, m["samplesPerPixel"@]).insert("pixelType"@, m["pixelType"@]).insert(
        "compression"@,
        written_compression(m),
    );
    with_extra(
        with_extra(with_extra(with_extra(base, m, "tileWidth"@), m, "tileHeight"@), m, "predictor"@),
        m,
        "container"@,
    )
}

/// Whether a label written from fields `m` reads back to them: the label
/// can be written, the dimensions are one line each, neither start nor
/// end with white space and are not wrapped in double quotes, and the
/// other values written are one line each.
pub open spec fn label_round_trips(m: Map<Seq<char>, Seq<char>>) -> bool {
    &&& has_label_fields(m)
    &&& isis_type_of(m["pixelType"@]) is Some
    &&& bare_value_ok(m["imageWidth"@])
    &&& bare_value_ok(m["imageHeight"@])
    &&& bare_value_ok(m["samplesPerPixel"@])
    &&& m.contains_key("compression"@) ==> one_line(m["compression"@])
    &&& m.contains_key("tileWidth"@) ==> one_line(m["tileWidth"@])
    &&& m.contains_key("tileHeight"@) ==> one_line(m["tileHeight"@])
    &&& m.contains_key("predictor"@) ==> one_line(m["predictor"@])
    &&& m.contains_key("container"@) ==> one_line(m["container"@])
}

proof fn lemma_type_round_trip(pt: Seq<char>)
    requires
        isis_type_of(pt) is Some,
    ensures
        pixel_type_of_isis(isis_type_of(pt)->0) == Some(pt),
        bare_value_ok(isis_type_of(pt)->0),
{
    lemma_label_values();
    reveal_strlit("UInt8");
    reveal_strlit("UInt16");
    reveal_strlit("UInt32");
    reveal_strlit("Float32");
    reveal_strlit("Float64");
    reveal_strlit("UnsignedByte");
    reveal_strlit("UnsignedWord");
    reveal_strlit("UnsignedInteger");
    reveal_strlit("Real");
    reveal_strlit("Double");
}

proof fn lemma_first_line(m: Map<Seq<char>, Seq<char>>, w: Seq<char>, h: Seq<char>, b: Seq<char>, t: Seq<char>)
    ensures
        contains_seq(join_lines(label_lines(m, w, h, b, t)), "Object = IsisCube"@),
{
    let ls = label_lines(m, w, h, b, t);
    let first = kv_line(0, "Object"@, "IsisCube"@);
    assert(ls.len() >= 12);
    assert(ls[0] == first);
    let x = join_lines(ls);
    assert(x == first + seq!['\n'] + join_lines(ls.drop_first()));
    reveal_strlit("Object");
    reveal_strlit("IsisCube");
    reveal_strlit("Object = IsisCube");
    assert(first =~= "Object = IsisCube"@);
    assert(x.subrange(0, first.len() as int) =~= first);
    assert(x.subrange(0, 0 + "Object = IsisCube"@.len() as int) == "Object = IsisCube"@);
}

/// A label written from fields `m` ([`label_text`], what `write_label`
/// writes, as UTF-8) reads back, through `parse_label`, to the fields it
/// was written from ([`written_fields`]), for fields whose values survive
/// the line format ([`label_round_trips`]).
pub proof fn lemma_label_round_trip(m: Map<Seq<char>, Seq<char>>)
    requires
        label_round_trips(m),
    ensures
        ({
            let text = label_text(
                m,
                m["imageWidth"@],
                m["imageHeight"@],
                m["samplesPerPixel"@],
                isis_type_of(m["pixelType"@])->0,
            );
            &&& valid_utf8(utf8(text))
            &&& decode_utf8(utf8(text)) == text
            &&& label_readable(text, assignments(text))
            &&& parsed_fields(assignments(text)) == written_fields(m)
        }),
{
    let w = m["imageWidth"@];
    let h = m["imageHeight"@];
    let b = m["samplesPerPixel"@];
    let pt = m["pixelType"@];
    let t = isis_type_of(pt)->0;
    let text = label_text(m, w, h, b, t);
    lemma_type_round_trip(pt);
    lemma_label_text_lines(m, w, h, b, t);
    lemma_label_fold(m, w, h, b, t);
    lemma_assignments_lines(label_lines(m, w, h, b, t), Map::empty());
    lemma_first_line(m, w, h, b, t);
    vstd::utf8::encode_utf8_valid_utf8(text);
    vstd::utf8::encode_utf8_decode_utf8(text);
    let kv = assignments(text);
    assert(kv == written_assignments(m, w, h, b, t));
    reveal_strlit("Object");
    reveal_strlit("Group");
    reveal_strlit("Samples");
    reveal_strlit("Lines");
    reveal_strlit("Bands");
    reveal_strlit("Type");
    reveal_strlit("ByteOrder");
    reveal_strlit("Compression");
    reveal_strlit("tileWidth");
    reveal_strlit("tileHeight");
    reveal_strlit("predictor");
    reveal_strlit("container");
    reveal_strlit("imageWidth");
    reveal_strlit("imageHeight");
    reveal_strlit("samplesPerPixel");
    reveal_strlit("pixelType");
    reveal_strlit("compression");
    assert(kv.contains_key("Samples"@) && kv["Samples"@] == w);
    assert("Lines"@ != "Group"@) by {
        assert("Lines"@[0] != "Group"@[0]);
    }
    assert("Bands"@ != "Group"@) by {
        assert("Bands"@[0] != "Group"@[0]);
    }
    assert("Lines"@ != "Bands"@) by {
        assert("Lines"@[0] != "Bands"@[0]);
    }
    assert(kv.contains_key("Lines"@) && kv["Lines"@] == h);
    assert(kv.contains_key("Bands"@) && kv["Bands"@] == b);
    assert(kv.contains_key("Type"@) && kv["Type"@] == t);
    assert(kv.contains_key("Compression"@) && kv["Compression"@] == written_compression(m));
    assert("tileWidth"@ != "predictor"@) by {
        assert("tileWidth"@[0] != "predictor"@[0]);
    }
    assert("tileWidth"@ != "container"@) by {
        assert("tileWidth"@[0] != "container"@[0]);
    }
    assert("tileWidth"@ != "ByteOrder"@) by {
        assert("tileWidth"@[0] != "ByteOrder"@[0]);
    }
    assert("predictor"@ != "container"@) by {
        assert("predictor"@[0] != "container"@[0]);
    }
    assert("predictor"@ != "ByteOrder"@) by {
        assert("predictor"@[0] != "ByteOrder"@[0]);
    }
    assert("container"@ != "ByteOrder"@) by {
        assert("container"@[0] != "ByteOrder"@[0]);
    }
    assert(kv.contains_key("tileWidth"@) == m.contains_key("tileWidth"@));
    assert(kv.contains_key("tileHeight"@) == m.contains_key("tileHeight"@));
    assert(kv.contains_key("predictor"@) == m.contains_key("predictor"@));
    assert(kv.contains_key("container"@) == m.contains_key("container"@));
    assert(m.contains_key("tileWidth"@) ==> kv["tileWidth"@] == m["tileWidth"@]);
    assert(m.contains_key("tileHeight"@) ==> kv["tileHeight"@] == m["tileHeight"@]);
    assert(m.contains_key("predictor"@) ==> kv["predictor"@] == m["predictor"@]);
    assert(m.contains_key("container"@) ==> kv["container"@] == m["container"@]);
    assert(label_readable(text, kv));
    assert(parsed_fields(kv) =~= written_fields(m));
}

} // verus!
