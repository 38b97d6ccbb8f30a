//! Character-level text helpers: equality, whitespace trimming, and the
//! comma-separated lists in which the scope features are shown and stored.
use vstd::prelude::*;

verus! {

/// The Unicode `White_Space` property, which is what `char::is_whitespace` tests.
pub open spec fn is_white_space(c: char) -> bool {
    let v = c as u32;
    ||| 0x09 <= v <= 0x0D
    ||| v == 0x20
    ||| v == 0x85
    ||| v == 0xA0
    ||| v == 0x1680
    ||| 0x2000 <= v <= 0x200A
    ||| v == 0x2028
    ||| v == 0x2029
    ||| v == 0x202F
    ||| v == 0x205F
    ||| v == 0x3000
}

/// Space, tab, line feed, carriage return, the no-break space and the
/// ideographic space are whitespace; commas, ASCII letters and ASCII digits
/// are not.
pub proof fn lemma_white_space_examples(c: char)
    ensures
        is_white_space(' '),
        is_white_space('\t'),
        is_white_space('\n'),
        is_white_space('\r'),
        is_white_space('\u{a0}'),
        is_white_space('\u{3000}'),
        !is_white_space(','),
        ('0' <= c <= '9' || 'a' <= c <= 'z' || 'A' <= c <= 'Z') ==> !is_white_space(c),
{
}

/// `s` without its leading whitespace.
pub open spec fn trim_start(s: Seq<char>) -> Seq<char>
    decreases s.len(),
{
    if s.len() > 0 && is_white_space(s[0]) {
        trim_start(s.drop_first())
    } else {
        s
    }
}

/// `s` without its trailing whitespace.
pub open spec fn trim_end(s: Seq<char>) -> Seq<char>
    decreases s.len(),
{
    if s.len() > 0 && is_white_space(s.last()) {
        trim_end(s.drop_last())
    } else {
        s
    }
}

/// `s` without leading and trailing whitespace.
pub open spec fn trim(s: Seq<char>) -> Seq<char> {
    trim_end(trim_start(s))
}

/// Whether `c` is whitespace.
pub fn char_is_white_space(c: char) -> (r: bool)
    ensures
        r == is_white_space(c),
{
    let v: u32 = c as u32;
    (0x09 <= v && v <= 0x0D) || v == 0x20 || v == 0x85 || v == 0xA0 || v == 0x1680 || (0x2000
        <= v && v <= 0x200A) || v == 0x2028 || v == 0x2029 || v == 0x202F || v == 0x205F || v
        == 0x3000
}

/// Whether two texts hold the same characters.
pub fn same_text(a: &str, b: &str) -> (r: bool)
    ensures
        r == (a@ == b@),
{
    let n = a.unicode_len();
    let m = b.unicode_len();
    if n != m {
        return false;
    }
    let mut i: usize = 0;
    while i < n
        invariant
            n == a@.len(),
            m == b@.len(),
            n == m,
            i <= n,
            forall|j: int| 0 <= j < i ==> a@[j] == b@[j],
        decreases n - i,
    {
        if a.get_char(i) != b.get_char(i) {
            return false;
        }
        i = i + 1;
    }
    assert(a@ =~= b@);
    true
}

proof fn lemma_trim_start_skip(s: Seq<char>, a: int)
    requires
        0 <= a < s.len(),
        is_white_space(s[a]),
    ensures
        trim_start(s.skip(a)) == trim_start(s.skip(a + 1)),
{
    assert(s.skip(a).drop_first() =~= s.skip(a + 1));
}

proof fn lemma_trim_end_sub(s: Seq<char>, a: int, b: int)
    requires
        0 <= a < b <= s.len(),
        is_white_space(s[b - 1]),
    ensures
        trim_end(s.subrange(a, b)) == trim_end(s.subrange(a, b - 1)),
{
    assert(s.subrange(a, b).drop_last() =~= s.subrange(a, b - 1));
}

/// `text` without leading and trailing whitespace, as `str::trim` gives it.
pub fn trim_text(text: &str) -> (r: String)
    ensures
        r@ == trim(text@),
{
    let n = text.unicode_len();
    let mut a: usize = 0;
    assert(text@.skip(0) =~= text@);
    while a < n && char_is_white_space(text.get_char(a))
        invariant
            n == text@.len(),
            a <= n,
            trim_start(text@) == trim_start(text@.skip(a as int)),
        decreases n - a,
    {
        proof {
            lemma_trim_start_skip(text@, a as int);
        }
        a = a + 1;
    }
    assert(trim_start(text@) == text@.subrange(a as int, n as int)) by {
        assert(text@.skip(a as int) =~= text@.subrange(a as int, n as int));
    }
    let mut b: usize = n;
    while b > a && char_is_white_space(text.get_char(b - 1))
        invariant
            n == text@.len(),
            a <= b <= n,
            trim(text@) == trim_end(text@.subrange(a as int, b as int)),
        decreases b - a,
    {
        proof {
            lemma_trim_end_sub(text@, a as int, b as int);
        }
        b = b - 1;
    }
    let piece = text.substring_char(a, b);
    String::from_str(piece)
}


/// The pieces that `str::split(',')` yields: the text between commas, in order.
/// There is always one piece more than there are commas.
pub open spec fn split_commas(s: Seq<char>) -> Seq<Seq<char>>
    decreases s.len(),
{
    if s.len() == 0 {
        seq![Seq::<char>::empty()]
    } else {
        let prev = split_commas(s.drop_last());
        if s.last() == ',' {
            prev.push(Seq::<char>::empty())
        } else {
            prev.update(prev.len() - 1, prev.last().push(s.last()))
        }
    }
}

/// The pieces joined together with a comma between each two.
pub open spec fn join_commas(pieces: Seq<Seq<char>>) -> Seq<char>
    decreases pieces.len(),
{
    if pieces.len() == 0 {
        Seq::<char>::empty()
    } else if pieces.len() == 1 {
        pieces[0]
    } else {
        join_commas(pieces.drop_last()) + seq![','] + pieces.last()
    }
}

/// The character sequences that a sequence of strings holds.
pub open spec fn texts(v: Seq<String>) -> Seq<Seq<char>> {
    v.map_values(|s: String| s@)
}

/// `split_commas` never yields an empty list.
pub proof fn lemma_split_commas_nonempty(s: Seq<char>)
    ensures
        split_commas(s).len() >= 1,
    decreases s.len(),
{
    if s.len() > 0 {
        lemma_split_commas_nonempty(s.drop_last());
    }
}

/// Appending comma-free text extends the last piece.
proof fn lemma_split_append_plain(p: Seq<char>, q: Seq<char>)
    requires
        !q.contains(','),
    ensures
        split_commas(p + q).len() == split_commas(p).len(),
        split_commas(p + q) == split_commas(p).update(
            split_commas(p).len() - 1,
            split_commas(p).last() + q,
        ),
    decreases q.len(),
{
    lemma_split_commas_nonempty(p);
    if q.len() == 0 {
        assert(p + q =~= p);
        assert(split_commas(p).last() + q =~= split_commas(p).last());
        assert(split_commas(p).update(split_commas(p).len() - 1, split_commas(p).last())
            =~= split_commas(p));
    } else {
        let q0 = q.drop_last();
        assert(!q0.contains(',')) by {
            if q0.contains(',') {
                let k = choose|k: int| 0 <= k < q0.len() && q0[k] == ',';
                assert(q[k] == ',');
            }
        }
        lemma_split_append_plain(p, q0);
        assert((p + q).drop_last() =~= p + q0);
        assert((p + q).last() == q.last());
        assert(q.last() != ',') by {
            assert(q[q.len() - 1] == q.last());
        }
        assert((split_commas(p).last() + q0).push(q.last()) =~= split_commas(p).last() + q);
        assert(split_commas(p + q) =~= split_commas(p).update(
            split_commas(p).len() - 1,
            split_commas(p).last() + q,
        ));
    }
}

/// Splitting at the commas undoes joining with commas, when no piece holds a comma.
pub proof fn lemma_split_join(pieces: Seq<Seq<char>>)
    requires
        pieces.len() >= 1,
        forall|i: int| 0 <= i < pieces.len() ==> !(#[trigger] pieces[i]).contains(','),
    ensures
        split_commas(join_commas(pieces)) == pieces,
    decreases pieces.len(),
{
    if pieces.len() == 1 {
        let e = Seq::<char>::empty();
        lemma_split_append_plain(e, pieces[0]);
        assert(e + pieces[0] =~= pieces[0]);
        assert(split_commas(pieces[0]) =~= pieces);
    } else {
        let init = pieces.drop_last();
        assert forall|i: int| 0 <= i < init.len() implies !(#[trigger] init[i]).contains(',') by {
            assert(init[i] == pieces[i]);
        }
        lemma_split_join(init);
        let j = join_commas(init);
        let jc = j + seq![','];
        assert(jc.drop_last() =~= j);
        assert(split_commas(jc) == split_commas(j).push(Seq::<char>::empty()));
        assert(!pieces.last().contains(',')) by {
            assert(pieces[pieces.len() - 1] == pieces.last());
        }
        lemma_split_append_plain(jc, pieces.last());
        assert(Seq::<char>::empty() + pieces.last() =~= pieces.last());
        assert(split_commas(jc + pieces.last()) =~= pieces);
    }
}

/// No piece that `split_commas` yields holds a comma.
pub proof fn lemma_split_pieces_plain(s: Seq<char>)
    ensures
        forall|i: int|
            0 <= i < split_commas(s).len() ==> !(#[trigger] split_commas(s)[i]).contains(','),
    decreases s.len(),
{
    lemma_split_commas_nonempty(s);
    if s.len() > 0 {
        let prev = split_commas(s.drop_last());
        lemma_split_pieces_plain(s.drop_last());
        lemma_split_commas_nonempty(s.drop_last());
        if s.last() != ',' {
            let l = prev.last().push(s.last());
            assert(!l.contains(',')) by {
                if l.contains(',') {
                    let k = choose|k: int| 0 <= k < l.len() && l[k] == ',';
                    if k < l.len() - 1 {
                        assert(prev[prev.len() - 1][k] == ',');
                    }
                }
            }
        }
        assert forall|i: int| 0 <= i < split_commas(s).len() implies !(#[trigger] split_commas(
            s,
        )[i]).contains(',') by {
            if s.last() == ',' {
                if i < prev.len() {
                    assert(split_commas(s)[i] == prev[i]);
                } else {
                    assert(split_commas(s)[i] =~= Seq::<char>::empty());
                }
            } else if i < prev.len() - 1 {
                assert(split_commas(s)[i] == prev[i]);
            }
        }
    }
}

proof fn lemma_trim_start_within(s: Seq<char>, c: char)
    ensures
        trim_start(s).contains(c) ==> s.contains(c),
    decreases s.len(),
{
    if s.len() > 0 && is_white_space(s[0]) {
        lemma_trim_start_within(s.drop_first(), c);
        if trim_start(s.drop_first()).contains(c) {
            let k = choose|k: int| 0 <= k < s.drop_first().len() && s.drop_first()[k] == c;
            assert(s[k + 1] == c);
        }
    }
}

proof fn lemma_trim_end_within(s: Seq<char>, c: char)
    ensures
        trim_end(s).contains(c) ==> s.contains(c),
    decreases s.len(),
{
    if s.len() > 0 && is_white_space(s.last()) {
        lemma_trim_end_within(s.drop_last(), c);
        if trim_end(s.drop_last()).contains(c) {
            let k = choose|k: int| 0 <= k < s.drop_last().len() && s.drop_last()[k] == c;
            assert(s[k] == c);
        }
    }
}

/// Trimming removes characters at both ends and adds none.
pub proof fn lemma_trim_within(s: Seq<char>, c: char)
    ensures
        trim(s).contains(c) ==> s.contains(c),
{
    lemma_trim_start_within(s, c);
    lemma_trim_end_within(trim_start(s), c);
}

/// The text that `trim_end` leaves ends in a non-whitespace character, and
/// trimming it again changes nothing.
proof fn lemma_trim_end_settled(s: Seq<char>)
    ensures
        trim_end(trim_end(s)) == trim_end(s),
        trim_end(s).len() <= s.len(),
        trim_end(s) == s.take(trim_end(s).len() as int),
        trim_end(s).len() > 0 ==> !is_white_space(trim_end(s).last()),
    decreases s.len(),
{
    if s.len() > 0 && is_white_space(s.last()) {
        lemma_trim_end_settled(s.drop_last());
        let t = trim_end(s.drop_last());
        assert(s.drop_last().take(t.len() as int) =~= s.take(t.len() as int));
    } else {
        assert(s.take(s.len() as int) =~= s);
    }
}

/// The text that `trim_start` leaves starts with a non-whitespace character.
proof fn lemma_trim_start_settled(s: Seq<char>)
    ensures
        trim_start(s).len() > 0 ==> !is_white_space(trim_start(s)[0]),
    decreases s.len(),
{
    if s.len() > 0 && is_white_space(s[0]) {
        lemma_trim_start_settled(s.drop_first());
    }
}

/// Trimming twice is trimming once.
pub proof fn lemma_trim_idempotent(s: Seq<char>)
    ensures
        trim(trim(s)) == trim(s),
{
    let t = trim_start(s);
    lemma_trim_start_settled(s);
    lemma_trim_end_settled(t);
    let u = trim_end(t);
    // `u` is a prefix of `t`, so it starts where `t` does.
    if u.len() > 0 {
        assert(u[0] == t[0]);
        assert(trim_start(u) == u);
    } else {
        assert(trim_start(u) == u);
    }
}

proof fn lemma_join_extend_last(pieces: Seq<Seq<char>>, c: char)
    requires
        pieces.len() >= 1,
    ensures
        join_commas(pieces.update(pieces.len() - 1, pieces.last().push(c))) == join_commas(
            pieces,
        ).push(c),
{
    let u = pieces.update(pieces.len() - 1, pieces.last().push(c));
    if pieces.len() == 1 {
        assert(u[0] == pieces[0].push(c));
    } else {
        assert(u.drop_last() =~= pieces.drop_last());
        assert(u.last() == pieces.last().push(c));
        assert(join_commas(u) =~= join_commas(pieces).push(c));
    }
}

/// Joining with commas the pieces that splitting at the commas yields gives
/// back the text: splitting loses nothing and invents nothing.
pub proof fn lemma_join_split(s: Seq<char>)
    ensures
        join_commas(split_commas(s)) == s,
    decreases s.len(),
{
    if s.len() == 0 {
        assert(split_commas(s) =~= seq![Seq::<char>::empty()]);
        assert(join_commas(split_commas(s)) =~= s);
    } else {
        let init = s.drop_last();
        lemma_join_split(init);
        lemma_split_commas_nonempty(init);
        let p = split_commas(init);
        if s.last() == ',' {
            let q = p.push(Seq::<char>::empty());
            assert(q.drop_last() =~= p);
            assert(join_commas(q) =~= init + seq![','] + Seq::<char>::empty());
            assert(init + seq![','] + Seq::<char>::empty() =~= s);
        } else {
            lemma_join_extend_last(p, s.last());
            assert(init.push(s.last()) =~= s);
        }
    }
}

proof fn lemma_trim_start_drops_white_space(s: Seq<char>)
    ensures
        exists|a: int|
            0 <= a <= s.len() && trim_start(s) == s.skip(a) && (forall|i: int|
                0 <= i < a ==> is_white_space(#[trigger] s[i])) && (a < s.len()
                ==> !is_white_space(s[a])),
    decreases s.len(),
{
    if s.len() > 0 && is_white_space(s[0]) {
        let t = s.drop_first();
        lemma_trim_start_drops_white_space(t);
        let a = choose|a: int|
            0 <= a <= t.len() && trim_start(t) == t.skip(a) && (forall|i: int|
                0 <= i < a ==> is_white_space(#[trigger] t[i])) && (a < t.len()
                ==> !is_white_space(t[a]));
        assert(t.skip(a) =~= s.skip(a + 1));
        assert forall|i: int| 0 <= i < a + 1 implies is_white_space(#[trigger] s[i]) by {
            if i > 0 {
                assert(s[i] == t[i - 1]);
            }
        }
        if a + 1 < s.len() {
            assert(s[a + 1] == t[a]);
        }
    } else {
        assert(s.skip(0) =~= s);
    }
}

proof fn lemma_trim_end_drops_white_space(s: Seq<char>)
    ensures
        exists|b: int|
            0 <= b <= s.len() && trim_end(s) == s.take(b) && (forall|i: int|
                b <= i < s.len() ==> is_white_space(#[trigger] s[i])) && (b > 0
                ==> !is_white_space(s[b - 1])),
    decreases s.len(),
{
    if s.len() > 0 && is_white_space(s.last()) {
        let t = s.drop_last();
        lemma_trim_end_drops_white_space(t);
        let b = choose|b: int|
            0 <= b <= t.len() && trim_end(t) == t.take(b) && (forall|i: int|
                b <= i < t.len() ==> is_white_space(#[trigger] t[i])) && (b > 0
                ==> !is_white_space(t[b - 1]));
        assert(t.take(b) =~= s.take(b));
        assert forall|i: int| b <= i < s.len() implies is_white_space(#[trigger] s[i]) by {
            if i < s.len() - 1 {
                assert(s[i] == t[i]);
            }
        }
        if b > 0 {
            assert(s[b - 1] == t[b - 1]);
        }
    } else {
        assert(s.take(s.len() as int) =~= s);
    }
}

/// Trimming keeps a contiguous middle part of the text: everything before it
/// and after it is whitespace, and the part neither starts nor ends with
/// whitespace.
pub proof fn lemma_trim_keeps_middle(s: Seq<char>)
    ensures
        exists|a: int, b: int|
            0 <= a <= b <= s.len() && trim(s) == s.subrange(a, b) && (forall|i: int|
                0 <= i < a ==> is_white_space(#[trigger] s[i])) && (forall|i: int|
                b <= i < s.len() ==> is_white_space(#[trigger] s[i])) && (a < b ==> (
            !is_white_space(s[a]) && !is_white_space(s[b - 1]))),
{
    lemma_trim_start_drops_white_space(s);
    let a = choose|a: int|
        0 <= a <= s.len() && trim_start(s) == s.skip(a) && (forall|i: int|
            0 <= i < a ==> is_white_space(#[trigger] s[i])) && (a < s.len() ==> !is_white_space(
            s[a],
        ));
    let t = s.skip(a);
    lemma_trim_end_drops_white_space(t);
    let m = choose|b: int|
        0 <= b <= t.len() && trim_end(t) == t.take(b) && (forall|i: int|
            b <= i < t.len() ==> is_white_space(#[trigger] t[i])) && (b > 0 ==> !is_white_space(
            t[b - 1],
        ));
    let b = a + m;
    assert(t.take(m) =~= s.subrange(a, b));
    assert forall|i: int| b <= i < s.len() implies is_white_space(#[trigger] s[i]) by {
        assert(s[i] == t[i - a]);
    }
    if a < b {
        assert(s[a] == t[0]);
        assert(s[b - 1] == t[m - 1]);
    }
    assert(0 <= a <= b <= s.len() && trim(s) == s.subrange(a, b) && (forall|i: int|
        0 <= i < a ==> is_white_space(#[trigger] s[i])) && (forall|i: int|
        b <= i < s.len() ==> is_white_space(#[trigger] s[i])) && (a < b ==> (!is_white_space(s[a])
        && !is_white_space(s[b - 1]))));
}

/// The strings joined together with a comma between each two.
pub fn join_with_commas(pieces: &Vec<String>) -> (r: String)
    ensures
        r@ == join_commas(texts(pieces@)),
{
    let mut out = String::new();
    let n = pieces.len();
    let ghost all = texts(pieces@);
    let sep = ",";
    proof {
        reveal_strlit(",");
    }
    let mut i: usize = 0;
    while i < n
        invariant
            n == pieces@.len(),
            all == texts(pieces@),
            sep@ == seq![','],
            i <= n,
            out@ == join_commas(all.take(i as int)),
        decreases n - i,
    {
        let ghost before = out@;
        if i > 0 {
            out.append(sep);
        }
        out.append(pieces[i].as_str());
        proof {
            let t = all.take(i + 1);
            assert(t.drop_last() =~= all.take(i as int));
            assert(t.last() == pieces@[i as int]@);
            if i == 0 {
                assert(before =~= Seq::<char>::empty());
                assert(out@ =~= t[0]);
            } else {
                assert(out@ =~= before + seq![','] + t.last());
            }
        }
        i = i + 1;
    }
    assert(all.take(n as int) =~= all);
    out
}

/// The pieces between the commas of `text`, each without leading and trailing whitespace.
pub fn split_commas_trimmed(text: &str) -> (r: Vec<String>)
    ensures
        texts(r@) == split_commas(text@).map_values(|p: Seq<char>| trim(p)),
{
    let n = text.unicode_len();
    let mut out: Vec<String> = Vec::new();
    let mut start: usize = 0;
    let mut i: usize = 0;
    assert(text@.take(0) =~= Seq::<char>::empty());
    while i < n
        invariant
            n == text@.len(),
            start <= i <= n,
            split_commas(text@.take(i as int)).len() == out@.len() + 1,
            forall|j: int|
                0 <= j < out@.len() ==> (#[trigger] out@[j])@ == trim(
                    split_commas(text@.take(i as int))[j],
                ),
            split_commas(text@.take(i as int)).last() == text@.subrange(start as int, i as int),
        decreases n - i,
    {
        let c = text.get_char(i);
        let ghost prev = split_commas(text@.take(i as int));
        proof {
            assert(text@.take(i + 1).drop_last() =~= text@.take(i as int));
            assert(text@.take(i + 1).last() == c);
            lemma_split_commas_nonempty(text@.take(i as int));
        }
        if c == ',' {
            let piece = text.substring_char(start, i);
            let t = trim_text(piece);
            out.push(t);
            start = i + 1;
            proof {
                assert(split_commas(text@.take(i + 1)) == prev.push(Seq::<char>::empty()));
                assert(text@.subrange(start as int, i + 1) =~= Seq::<char>::empty());
            }
        } else {
            proof {
                assert(text@.subrange(start as int, i + 1) =~= text@.subrange(
                    start as int,
                    i as int,
                ).push(c));
            }
        }
        i = i + 1;
    }
    assert(text@.take(n as int) =~= text@);
    let last = text.substring_char(start, n);
    let t = trim_text(last);
    out.push(t);
    let ghost pieces = split_commas(text@);
    assert(texts(out@) =~= pieces.map_values(|p: Seq<char>| trim(p)));
    out
}

} // verus!
