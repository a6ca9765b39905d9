use vstd::prelude::*;
use vstd::string::StringExecFns;
use vstd::string::StrSliceExecFns;

verus! {

/// The lowercased form of a piece of text, as Unicode case mapping defines
/// it.  The mapping itself is not spelled out here; contracts only rely on
/// two texts having the same lowercased form.
pub uninterp spec fn lower_of(s: Seq<char>) -> Seq<char>;

/// Relies on `str::to_lowercase`: the result is a function of the
/// characters alone, and an empty text stays empty.
#[verifier::external_body]
pub(crate) fn lowercase(s: &str) -> (r: String)
    ensures
        r@ == lower_of(s@),
        s@.len() == 0 ==> r@.len() == 0,
{
    s.to_lowercase()
}

/// Whether two texts are the same up to letter case.
pub fn eq_ignore_case(a: &str, b: &str) -> (r: bool)
    ensures
        r == (lower_of(a@) == lower_of(b@)),
{
    let la = lowercase(a);
    let lb = lowercase(b);
    la == lb
}

/// Whether `s` is free of the separator `sep`.
pub open spec fn sep_free(s: Seq<char>, sep: char) -> bool {
    forall|i: int| 0 <= i < s.len() ==> #[trigger] s[i] != sep
}

/// The pieces of `s` between occurrences of `sep`.  The empty text is one
/// empty piece; every occurrence of `sep` opens a further piece.
pub open spec fn split_on(s: Seq<char>, sep: char) -> Seq<Seq<char>>
    decreases s.len(),
{
    if s.len() == 0 {
        seq![Seq::<char>::empty()]
    } else {
        let rest = split_on(s.drop_first(), sep);
        if s[0] == sep {
            seq![Seq::<char>::empty()] + rest
        } else {
            seq![seq![s[0]] + rest[0]] + rest.drop_first()
        }
    }
}

/// The pieces of `fields`, written one after another with `sep` between
/// each two of them.
pub open spec fn join_with(fields: Seq<Seq<char>>, sep: char) -> Seq<char>
    decreases fields.len(),
{
    if fields.len() == 0 {
        Seq::<char>::empty()
    } else if fields.len() == 1 {
        fields[0]
    } else {
        fields[0] + seq![sep] + join_with(fields.drop_first(), sep)
    }
}

/// Splitting yields at least one piece.
pub proof fn lemma_split_nonempty(s: Seq<char>, sep: char)
    ensures
        split_on(s, sep).len() >= 1,
    decreases s.len(),
{
    if s.len() > 0 {
        lemma_split_nonempty(s.drop_first(), sep);
    }
}

/// A text free of the separator splits into exactly itself.
pub proof fn lemma_split_sep_free(s: Seq<char>, sep: char)
    requires
        sep_free(s, sep),
    ensures
        split_on(s, sep) == seq![s],
    decreases s.len(),
{
    if s.len() == 0 {
        assert(split_on(s, sep) =~~= seq![s]);
    } else {
        assert(sep_free(s.drop_first(), sep));
        lemma_split_sep_free(s.drop_first(), sep);
        assert(split_on(s, sep) =~~= seq![s]);
    }
}

/// Splitting takes a leading separator-free piece off the front.
pub proof fn lemma_split_prepend(f: Seq<char>, t: Seq<char>, sep: char)
    requires
        sep_free(f, sep),
    ensures
        split_on(f + seq![sep] + t, sep) == seq![f] + split_on(t, sep),
    decreases f.len(),
{
    let s = f + seq![sep] + t;
    if f.len() == 0 {
        assert(s[0] == sep);
        assert(s.drop_first() =~= t);
        assert(split_on(s, sep) =~~= seq![f] + split_on(t, sep));
    } else {
        assert(s[0] == f[0]);
        assert(s.drop_first() =~= f.drop_first() + seq![sep] + t);
        assert(sep_free(f.drop_first(), sep));
        lemma_split_prepend(f.drop_first(), t, sep);
        let rest = split_on(s.drop_first(), sep);
        assert(rest == seq![f.drop_first()] + split_on(t, sep));
        assert(rest[0] == f.drop_first());
        assert(seq![f[0]] + rest[0] =~= f);
        assert(rest.drop_first() =~= split_on(t, sep));
        assert(split_on(s, sep) =~~= seq![f] + split_on(t, sep));
    }
}

/// Splitting undoes joining, wherever no piece holds the separator.
pub proof fn lemma_split_join(fields: Seq<Seq<char>>, sep: char)
    requires
        fields.len() >= 1,
        forall|i: int| 0 <= i < fields.len() ==> sep_free(#[trigger] fields[i], sep),
    ensures
        split_on(join_with(fields, sep), sep) == fields,
    decreases fields.len(),
{
    if fields.len() == 1 {
        lemma_split_sep_free(fields[0], sep);
        assert(split_on(join_with(fields, sep), sep) =~~= fields);
    } else {
        let rest = fields.drop_first();
        assert(forall|i: int| 0 <= i < rest.len() ==> sep_free(#[trigger] rest[i], sep));
        lemma_split_join(rest, sep);
        lemma_split_prepend(fields[0], join_with(rest, sep), sep);
        assert(split_on(join_with(fields, sep), sep) =~~= fields);
    }
}

/// Splits a text at every occurrence of `sep`.
pub fn split_str(s: &str, sep: char) -> (r: Vec<String>)
    ensures
        r.deep_view() == split_on(s@, sep),
{
    let n = s.unicode_len();
    let mut r: Vec<String> = Vec::new();
    let mut start: usize = 0;
    let mut i: usize = 0;
    proof {
        assert(s@.subrange(0, n as int) =~= s@);
        assert(r.deep_view() =~= Seq::<Seq<char>>::empty());
        assert(split_on(s@, sep) =~~= r.deep_view() + split_on(s@.subrange(0, n as int), sep));
    }
    while i < n
        invariant
            start <= i <= n,
            n == s@.len(),
            sep_free(s@.subrange(start as int, i as int), sep),
            split_on(s@, sep) == r.deep_view() + split_on(
                s@.subrange(start as int, n as int),
                sep,
            ),
        decreases n - i,
    {
        let c = s.get_char(i);
        if c == sep {
            let piece = s.substring_char(start, i).to_owned();
            proof {
                let tail = s@.subrange(i + 1, n as int);
                assert(s@.subrange(start as int, n as int) =~= s@.subrange(start as int, i as int)
                    + seq![sep] + tail);
                lemma_split_prepend(s@.subrange(start as int, i as int), tail, sep);
            }
            r.push(piece);
            proof {
                assert(split_on(s@, sep) =~~= r.deep_view() + split_on(
                    s@.subrange(i + 1, n as int),
                    sep,
                ));
            }
            start = i + 1;
        } else {
            proof {
                assert(s@.subrange(start as int, i + 1) =~= s@.subrange(start as int, i as int)
                    + seq![s@[i as int]]);
            }
        }
        i = i + 1;
    }
    let piece = s.substring_char(start, n).to_owned();
    proof {
        lemma_split_sep_free(s@.subrange(start as int, n as int), sep);
    }
    r.push(piece);
    proof {
        assert(split_on(s@, sep) =~~= r.deep_view());
    }
    r
}

/// Writes the fields one after another with the separator between each two.
/// `sep_str` is the one-character text of `sep`.
pub fn join_str(fields: &Vec<String>, sep_str: &str, sep: char) -> (r: String)
    requires
        sep_str@ == seq![sep],
    ensures
        r@ == join_with(fields.deep_view(), sep),
{
    let r = join_from(fields, 0, sep_str, sep);
    assert(fields.deep_view().skip(0) =~= fields.deep_view());
    r
}

/// Joins the fields from position `idx` on.
fn join_from(fields: &Vec<String>, idx: usize, sep_str: &str, sep: char) -> (r: String)
    requires
        idx <= fields@.len(),
        sep_str@ == seq![sep],
    ensures
        r@ == join_with(fields.deep_view().skip(idx as int), sep),
    decreases fields@.len() - idx,
{
    let n = fields.len();
    if idx == n {
        String::new()
    } else if idx == n - 1 {
        assert(fields.deep_view().skip(idx as int) =~= seq![fields.deep_view()[idx as int]]);
        fields[idx].clone()
    } else {
        let rest = join_from(fields, idx + 1, sep_str, sep);
        let mut r = fields[idx].clone();
        r.append(sep_str);
        r.append(rest.as_str());
        proof {
            let dv = fields.deep_view();
            assert(dv.skip(idx as int).drop_first() =~= dv.skip(idx + 1));
            assert(dv.skip(idx as int)[0] == dv[idx as int]);
        }
        r
    }
}

} // verus!
