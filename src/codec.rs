use vstd::prelude::*;

verus! {

/// Whether the character at position `i` of `s` is escaped: it follows a backslash
/// that is not itself escaped. Position `s.len()` is escaped when `s` ends in a
/// dangling backslash.
pub open spec fn escaped(s: Seq<char>, i: int) -> bool
    decreases i,
{
    if i <= 0 {
        false
    } else {
        s[i - 1] == '\\' && !escaped(s, i - 1)
    }
}

/// A colon that is not escaped: the only character that separates two fields.
pub open spec fn is_separator(s: Seq<char>, i: int) -> bool {
    s[i] == ':' && !escaped(s, i)
}

/// The fields of the first `n` characters of `s`: split at each separator, with
/// escape backslashes kept in the field text.
pub open spec fn fields_upto(s: Seq<char>, n: int) -> Seq<Seq<char>>
    decreases n,
{
    if n <= 0 {
        seq![Seq::<char>::empty()]
    } else {
        let prev = fields_upto(s, n - 1);
        if is_separator(s, n - 1) {
            prev.push(Seq::<char>::empty())
        } else {
            prev.update(prev.len() - 1, prev.last().push(s[n - 1]))
        }
    }
}

/// The fields of `s`.
pub open spec fn split_fields(s: Seq<char>) -> Seq<Seq<char>> {
    fields_upto(s, s.len() as int)
}

/// The fields written out again, with a colon between each two.
pub open spec fn join_fields(fs: Seq<Seq<char>>) -> Seq<char>
    decreases fs.len(),
{
    if fs.len() == 0 {
        Seq::<char>::empty()
    } else if fs.len() == 1 {
        fs[0]
    } else {
        join_fields(fs.drop_last()).push(':') + fs.last()
    }
}

/// The texts of a sequence of strings.
pub open spec fn views(v: Seq<String>) -> Seq<Seq<char>> {
    v.map_values(|f: String| f@)
}

/// The literal first segment of every structured name.
pub open spec fn cpe_prefix() -> Seq<char> {
    seq!['c', 'p', 'e']
}

/// The only naming-scheme version this codec reads.
pub open spec fn cpe_version() -> Seq<char> {
    seq!['2', '.', '3']
}

/// A raw string that reads as a structured name: thirteen segments, the first two
/// of which are the prefix and the version.
pub open spec fn well_formed_name(s: Seq<char>) -> bool {
    let parts = split_fields(s);
    &&& parts.len() == 13
    &&& parts[0] == cpe_prefix()
    &&& parts[1] == cpe_version()
}

/// The canonical text of a name with these twelve fields.
pub open spec fn serialize_fields(fields: Seq<Seq<char>>) -> Seq<char> {
    join_fields(seq![cpe_prefix()].add(fields))
}

/// Every prefix has at least one field.
pub proof fn lemma_fields_upto_nonempty(s: Seq<char>, n: int)
    ensures
        fields_upto(s, n).len() >= 1,
    decreases n,
{
    if n > 0 {
        lemma_fields_upto_nonempty(s, n - 1);
    }
}

/// Joining the fields of a prefix gives the prefix back.
pub proof fn lemma_join_fields_upto(s: Seq<char>, n: int)
    requires
        0 <= n <= s.len(),
    ensures
        join_fields(fields_upto(s, n)) == s.take(n),
    decreases n,
{
    if n == 0 {
        assert(s.take(0) =~= Seq::<char>::empty());
    } else {
        let prev = fields_upto(s, n - 1);
        lemma_fields_upto_nonempty(s, n - 1);
        lemma_join_fields_upto(s, n - 1);
        let cur = fields_upto(s, n);
        if is_separator(s, n - 1) {
            assert(cur.drop_last() =~= prev);
            assert(s.take(n) =~= s.take(n - 1).push(':'));
            assert(join_fields(cur) =~= s.take(n));
        } else {
            assert(s.take(n) =~= s.take(n - 1).push(s[n - 1]));
            if prev.len() == 1 {
                assert(join_fields(cur) =~= s.take(n));
            } else {
                assert(cur.drop_last() =~= prev.drop_last());
                assert(join_fields(cur) =~= s.take(n));
            }
        }
    }
}

/// Joining the fields of a string gives the string back.
pub proof fn lemma_join_split(s: Seq<char>)
    ensures
        join_fields(split_fields(s)) == s,
{
    lemma_join_fields_upto(s, s.len() as int);
    assert(s.take(s.len() as int) =~= s);
}

/// A field text that reads back as one field: each colon in it is escaped, and it
/// does not end in a dangling backslash.
pub open spec fn closed_field(f: Seq<char>) -> bool {
    &&& forall|i: int| 0 <= i < f.len() && f[i] == ':' ==> escaped(f, i)
    &&& !escaped(f, f.len() as int)
}

/// Escape state depends only on the characters before the position.
pub proof fn lemma_escaped_prefix(s1: Seq<char>, s2: Seq<char>, n: int, i: int)
    requires
        0 <= i <= n <= s1.len(),
        n <= s2.len(),
        s1.take(n) == s2.take(n),
    ensures
        escaped(s1, i) == escaped(s2, i),
    decreases i,
{
    if i > 0 {
        assert(s1[i - 1] == s1.take(n)[i - 1]);
        assert(s2[i - 1] == s2.take(n)[i - 1]);
        lemma_escaped_prefix(s1, s2, n, i - 1);
    }
}

/// The fields of a prefix depend only on the prefix.
pub proof fn lemma_fields_prefix(s1: Seq<char>, s2: Seq<char>, n: int, m: int)
    requires
        0 <= m <= n <= s1.len(),
        n <= s2.len(),
        s1.take(n) == s2.take(n),
    ensures
        fields_upto(s1, m) == fields_upto(s2, m),
    decreases m,
{
    if m > 0 {
        lemma_fields_prefix(s1, s2, n, m - 1);
        lemma_escaped_prefix(s1, s2, n, m - 1);
        assert(s1[m - 1] == s1.take(n)[m - 1]);
        assert(s2[m - 1] == s2.take(n)[m - 1]);
    }
}

/// Where `b` stands in `t` at `q` and `q` is not escaped, escape state inside `b` is
/// the same as in `b` alone.
pub proof fn lemma_escaped_shift(t: Seq<char>, b: Seq<char>, q: int, i: int)
    requires
        0 <= q,
        q + b.len() <= t.len(),
        t.subrange(q, q + b.len()) == b,
        !escaped(t, q),
        0 <= i <= b.len(),
    ensures
        escaped(t, q + i) == escaped(b, i),
    decreases i,
{
    if i > 0 {
        lemma_escaped_shift(t, b, q, i - 1);
        assert(t[q + i - 1] == t.subrange(q, q + b.len())[i - 1]);
    }
}

/// Reading a field whose colons are all escaped, from a position that starts a new
/// field, adds its characters to that field.
pub proof fn lemma_fields_tail(s: Seq<char>, g: Seq<Seq<char>>, b: Seq<char>, q: int, i: int)
    requires
        0 <= q,
        q + b.len() <= s.len(),
        s.subrange(q, q + b.len()) == b,
        !escaped(s, q),
        forall|k: int| 0 <= k < b.len() && b[k] == ':' ==> escaped(b, k),
        fields_upto(s, q) == g.push(Seq::<char>::empty()),
        0 <= i <= b.len(),
    ensures
        fields_upto(s, q + i) == g.push(b.take(i)),
    decreases i,
{
    if i == 0 {
        assert(b.take(0) =~= Seq::<char>::empty());
    } else {
        lemma_fields_tail(s, g, b, q, i - 1);
        lemma_escaped_shift(s, b, q, i - 1);
        assert(s[q + i - 1] == s.subrange(q, q + b.len())[i - 1]);
        assert(!is_separator(s, q + i - 1));
        let prev = g.push(b.take(i - 1));
        assert(b.take(i) =~= b.take(i - 1).push(b[i - 1]));
        assert(prev.update(prev.len() - 1, prev.last().push(s[q + i - 1])) =~= g.push(b.take(i)));
    }
}

/// Where the last field of the first `n` characters starts.
pub open spec fn last_start(s: Seq<char>, n: int) -> int
    decreases n,
{
    if n <= 0 {
        0
    } else if is_separator(s, n - 1) {
        n
    } else {
        last_start(s, n - 1)
    }
}

/// Every colon in `f` is escaped.
pub open spec fn colons_escaped(f: Seq<char>) -> bool {
    forall|i: int| 0 <= i < f.len() && f[i] == ':' ==> escaped(f, i)
}

/// Splitting leaves each field but the last closed, and every colon of the last one
/// escaped; the last field is the text since its start.
pub proof fn lemma_fields_upto_closed(s: Seq<char>, n: int)
    requires
        0 <= n <= s.len(),
    ensures
        fields_upto(s, n).len() >= 1,
        0 <= last_start(s, n) <= n,
        !escaped(s, last_start(s, n)),
        s.subrange(last_start(s, n), n) == fields_upto(s, n).last(),
        colons_escaped(fields_upto(s, n).last()),
        forall|k: int| 0 <= k < fields_upto(s, n).len() - 1 ==> closed_field(#[trigger] fields_upto(s, n)[k]),
    decreases n,
{
    if n == 0 {
        assert(s.subrange(0, 0) =~= Seq::<char>::empty());
    } else {
        lemma_fields_upto_closed(s, n - 1);
        let prev = fields_upto(s, n - 1);
        let st = last_start(s, n - 1);
        let last = prev.last();
        let cur = fields_upto(s, n);
        if is_separator(s, n - 1) {
            lemma_escaped_shift(s, last, st, last.len() as int);
            assert(closed_field(last));
            assert(s.subrange(n, n) =~= Seq::<char>::empty());
            assert forall|k: int| 0 <= k < cur.len() - 1 implies closed_field(#[trigger] cur[k]) by {
                if k < prev.len() - 1 {
                    assert(cur[k] == prev[k]);
                } else {
                    assert(cur[k] == last);
                }
            }
        } else {
            let next = last.push(s[n - 1]);
            assert(cur.last() == next);
            assert(s.subrange(st, n) =~= next);
            assert forall|i: int| 0 <= i < next.len() && next[i] == ':' implies escaped(next, i) by {
                if i < last.len() {
                    assert(next.take(last.len() as int) =~= last.take(last.len() as int));
                    lemma_escaped_prefix(next, last, last.len() as int, i);
                } else {
                    lemma_escaped_shift(s, next, st, i);
                }
            }
            assert forall|k: int| 0 <= k < cur.len() - 1 implies closed_field(#[trigger] cur[k]) by {
                assert(cur[k] == prev[k]);
            }
        }
    }
}

/// Joined closed fields do not end in a dangling backslash.
pub proof fn lemma_join_end_not_escaped(fs: Seq<Seq<char>>)
    requires
        fs.len() >= 1,
        forall|k: int| 0 <= k < fs.len() ==> closed_field(#[trigger] fs[k]),
    ensures
        !escaped(join_fields(fs), join_fields(fs).len() as int),
{
    let s = join_fields(fs);
    let last = fs.last();
    assert(closed_field(fs[fs.len() - 1]));
    if fs.len() >= 2 {
        let p = join_fields(fs.drop_last()).len() as int;
        assert(s.subrange(p + 1, p + 1 + last.len()) =~= last);
        assert(s[p] == ':');
        lemma_escaped_shift(s, last, p + 1, last.len() as int);
    }
}

/// Escaped colons stay inside their field: closed fields, joined and split again,
/// come back as they were.
pub proof fn lemma_split_join(fs: Seq<Seq<char>>)
    requires
        fs.len() >= 1,
        forall|k: int| 0 <= k < fs.len() ==> closed_field(#[trigger] fs[k]),
    ensures
        split_fields(join_fields(fs)) == fs,
    decreases fs.len(),
{
    let s = join_fields(fs);
    let last = fs.last();
    assert(closed_field(fs[fs.len() - 1]));
    if fs.len() == 1 {
        assert(s.subrange(0, last.len() as int) =~= last);
        assert(fields_upto(s, 0) =~= Seq::<Seq<char>>::empty().push(Seq::<char>::empty()));
        lemma_fields_tail(s, Seq::<Seq<char>>::empty(), last, 0, last.len() as int);
        assert(last.take(last.len() as int) =~= last);
        assert(Seq::<Seq<char>>::empty().push(last) =~= fs);
    } else {
        let front = fs.drop_last();
        let s1 = join_fields(front);
        let p = s1.len() as int;
        assert forall|k: int| 0 <= k < front.len() implies closed_field(#[trigger] front[k]) by {
            assert(front[k] == fs[k]);
        }
        lemma_split_join(front);
        assert(s.take(p) =~= s1.take(p));
        lemma_fields_prefix(s, s1, p, p);
        lemma_join_end_not_escaped(front);
        lemma_escaped_prefix(s, s1, p, p);
        assert(s[p] == ':');
        assert(fields_upto(s, p + 1) == front.push(Seq::<char>::empty()));
        assert(s.subrange(p + 1, p + 1 + last.len()) =~= last);
        lemma_fields_tail(s, front, last, p + 1, last.len() as int);
        assert(last.take(last.len() as int) =~= last);
        assert(front.push(last) =~= fs);
    }
}

/// Joining two nonempty runs of fields puts one colon between them.
pub proof fn lemma_join_append(a: Seq<Seq<char>>, b: Seq<Seq<char>>)
    requires
        a.len() >= 1,
        b.len() >= 1,
    ensures
        join_fields(a + b) == join_fields(a).push(':') + join_fields(b),
    decreases b.len(),
{
    if b.len() == 1 {
        assert((a + b).drop_last() =~= a);
        assert((a + b).last() == b[0]);
    } else {
        lemma_join_append(a, b.drop_last());
        assert((a + b).drop_last() =~= a + b.drop_last());
        assert((a + b).last() == b.last());
        assert(join_fields(a + b) =~= join_fields(a).push(':') + join_fields(b));
    }
}

/// Relies on String::push: appends one character.
#[verifier::external_body]
pub(crate) fn push_char(s: &mut String, c: char)
    ensures
        final(s)@ == old(s)@.push(c),
{
    s.push(c);
}

/// The characters of `s`.
pub fn chars_of(s: &str) -> (r: Vec<char>)
    ensures
        r@ == s@,
{
    let mut out: Vec<char> = Vec::new();
    let ghost full = s@;
    for c in it: s.chars()
        invariant
            it.seq() == full,
            full == s@,
            out@ == full.take(it.index() as int),
    {
        let ghost i = it.index() as int;
        out.push(c);
        assert(full.take(i + 1) =~= full.take(i).push(c));
    }
    assert(full.take(full.len() as int) =~= full);
    out
}

/// Splits `s` at its separators; a backslash escapes the character after it and
/// stays in the field.
pub fn split_unescaped(s: &str) -> (r: Vec<String>)
    ensures
        views(r@) == split_fields(s@),
{
    let mut fields: Vec<String> = Vec::new();
    let mut cur = String::new();
    let mut escape = false;
    let ghost full = s@;
    for c in it: s.chars()
        invariant
            it.seq() == full,
            full == s@,
            escape == escaped(full, it.index() as int),
            views(fields@).push(cur@) == fields_upto(full, it.index() as int),
    {
        let ghost i = it.index() as int;
        proof {
            lemma_fields_upto_nonempty(full, i);
        }
        if c == ':' && !escape {
            fields.push(cur);
            cur = String::new();
            escape = false;
            assert(views(fields@).push(cur@) =~= fields_upto(full, i + 1));
        } else {
            push_char(&mut cur, c);
            escape = c == '\\' && !escape;
            assert(views(fields@).push(cur@) =~= fields_upto(full, i + 1));
        }
    }
    fields.push(cur);
    fields
}

} // verus!
