//! Texts with places to be filled in.
//!
//! In a template `{name}` stands for the value of `name`, and `{{` and `}}` stand for braces.

use vstd::prelude::*;

use crate::text::{chars_of, same_text, string_of};

verus! {

/// The value of a name: the first one that is bound to it, or nothing.
pub open spec fn value_of(bindings: Seq<(Seq<char>, Seq<char>)>, name: Seq<char>) -> Seq<char>
    decreases bindings.len(),
{
    if bindings.len() == 0 {
        seq![]
    } else if bindings[0].0 == name {
        bindings[0].1
    } else {
        value_of(bindings.drop_first(), name)
    }
}

/// How many characters stand before the next closing brace, or the end.
pub open spec fn name_len(t: Seq<char>) -> nat
    decreases t.len(),
{
    if t.len() == 0 || t[0] == '}' {
        0
    } else {
        1 + name_len(t.drop_first())
    }
}

/// A template with its places filled in.
pub open spec fn expand(t: Seq<char>, bindings: Seq<(Seq<char>, Seq<char>)>) -> Seq<char>
    decreases t.len(),
{
    if t.len() == 0 {
        seq![]
    } else if t.len() > 1 && (t[0] == '{' || t[0] == '}') && t[1] == t[0] {
        seq![t[0]] + expand(t.skip(2), bindings)
    } else if t[0] == '{' && 1 + name_len(t.drop_first()) < t.len() {
        let n = name_len(t.drop_first()) as int;
        value_of(bindings, t.subrange(1, 1 + n)) + expand(t.skip(n + 2), bindings)
    } else {
        seq![t[0]] + expand(t.drop_first(), bindings)
    }
}

/// What names and values hold.
pub open spec fn binding_views(v: Seq<(&str, &str)>) -> Seq<(Seq<char>, Seq<char>)> {
    Seq::new(v.len(), |i: int| (v[i].0@, v[i].1@))
}

proof fn lemma_name_len(t: Seq<char>, n: int)
    requires
        0 <= n <= t.len(),
        forall|i: int| 0 <= i < n ==> #[trigger] t[i] != '}',
        n < t.len() ==> t[n] == '}',
    ensures
        name_len(t) == n,
    decreases n,
{
    if n > 0 {
        assert(t[0] != '}');
        let rest = t.drop_first();
        assert forall|i: int| 0 <= i < n - 1 implies #[trigger] rest[i] != '}' by {
            assert(rest[i] == t[i + 1]);
        }
        lemma_name_len(rest, n - 1);
    }
}

/// Appends the value of a name.
fn push_value(out: &mut String, bindings: &Vec<(&str, &str)>, name: &str)
    ensures
        final(out)@ == old(out)@ + value_of(binding_views(bindings@), name@),
{
    let ghost bs = binding_views(bindings@);
    let mut i: usize = 0;
    assert(bs.skip(0) =~= bs);
    while i < bindings.len()
        invariant
            i <= bindings@.len(),
            bs == binding_views(bindings@),
            value_of(bs, name@) == value_of(bs.skip(i as int), name@),
            out@ == old(out)@,
        decreases bindings@.len() - i,
    {
        assert(bs.skip(i as int).drop_first() =~= bs.skip(i + 1));
        assert(bs.skip(i as int)[0] == (bindings@[i as int].0@, bindings@[i as int].1@));
        if same_text(bindings[i].0, name) {
            out.append(bindings[i].1);
            return ;
        }
        i = i + 1;
    }
    assert(out@ =~= old(out)@ + Seq::<char>::empty());
}

/// Fills in the places of a template.
pub fn fill(template: &str, bindings: &Vec<(&str, &str)>) -> (r: String)
    ensures
        r@ == expand(template@, binding_views(bindings@)),
{
    let v = chars_of(template);
    let ghost t = template@;
    let ghost bs = binding_views(bindings@);
    let n = v.len();
    let mut out = String::new();
    let mut i: usize = 0;
    assert(t.skip(0) =~= t);
    assert(out@ + expand(t, bs) =~= expand(t, bs));
    while i < n
        invariant
            v@ == t,
            n == v@.len(),
            bs == binding_views(bindings@),
            i <= n,
            expand(t, bs) == out@ + expand(t.skip(i as int), bs),
        decreases n - i,
    {
        let ghost rest = t.skip(i as int);
        let ghost before = out@;
        let c = v[i];
        assert(rest[0] == c);
        assert(rest.len() == n - i);
        if n - i > 1 && (c == '{' || c == '}') && v[i + 1] == c {
            assert(rest[1] == c);
            out.push(c);
            assert(rest.skip(2) =~= t.skip(i + 2));
            assert(before + (seq![c] + expand(t.skip(i + 2), bs)) =~= out@ + expand(
                t.skip(i + 2),
                bs,
            ));
            i = i + 2;
            continue ;
        }
        assert(!(rest.len() > 1 && (rest[0] == '{' || rest[0] == '}') && rest[1] == rest[0])) by {
            if rest.len() > 1 {
                assert(rest[1] == v@[i + 1]);
            }
        }
        if c == '{' {
            let mut j: usize = i + 1;
            while j < n && v[j] != '}'
                invariant
                    v@ == t,
                    n == v@.len(),
                    i < j <= n,
                    forall|k: int| i < k < j ==> #[trigger] v@[k] != '}',
                decreases n - j,
            {
                j = j + 1;
            }
            proof {
                let tail = rest.drop_first();
                assert forall|k: int| 0 <= k < j - i - 1 implies #[trigger] tail[k] != '}' by {
                    assert(tail[k] == v@[i + 1 + k]);
                }
                if j < n {
                    assert(tail[j - i - 1] == v@[j as int]);
                }
                lemma_name_len(tail, j - i - 1);
            }
            if j < n {
                let name = string_of(&v, i + 1, j);
                assert(name@ =~= rest.subrange(1, 1 + (j - i - 1)));
                push_value(&mut out, bindings, name.as_str());
                let ghost value = value_of(bs, name@);
                assert(rest.skip(j - i - 1 + 2) =~= t.skip(j + 1));
                assert(before + (value + expand(t.skip(j + 1), bs)) =~= out@ + expand(
                    t.skip(j + 1),
                    bs,
                ));
                i = j + 1;
                continue ;
            }
        }
        out.push(c);
        assert(rest.drop_first() =~= t.skip(i + 1));
        assert(before + (seq![c] + expand(t.skip(i + 1), bs)) =~= out@ + expand(
            t.skip(i + 1),
            bs,
        ));
        i = i + 1;
    }
    assert(t.skip(i as int) =~= seq![]);
    assert(out@ + Seq::<char>::empty() =~= out@);
    out
}

/// A text without braces stands for itself.
pub proof fn law_plain_text_is_kept(t: Seq<char>, bindings: Seq<(Seq<char>, Seq<char>)>)
    requires
        forall|i: int| 0 <= i < t.len() ==> #[trigger] t[i] != '{' && t[i] != '}',
    ensures
        expand(t, bindings) == t,
    decreases t.len(),
{
    if t.len() > 0 {
        let rest = t.drop_first();
        assert(forall|i: int| 0 <= i < rest.len() ==> rest[i] == t[i + 1]);
        law_plain_text_is_kept(rest, bindings);
        assert(t[0] != '{' && t[0] != '}');
        assert(seq![t[0]] + rest =~= t);
    }
}

/// Between plain texts a name in braces is replaced by its value.
pub proof fn law_place_is_filled(
    a: Seq<char>,
    name: Seq<char>,
    b: Seq<char>,
    bindings: Seq<(Seq<char>, Seq<char>)>,
)
    requires
        forall|i: int| 0 <= i < a.len() ==> #[trigger] a[i] != '{' && a[i] != '}',
        name.len() > 0,
        forall|i: int| 0 <= i < name.len() ==> #[trigger] name[i] != '{' && name[i] != '}',
    ensures
        expand(a + seq!['{'] + name + seq!['}'] + b, bindings) == a + value_of(bindings, name)
            + expand(b, bindings),
    decreases a.len(),
{
    let t = a + seq!['{'] + name + seq!['}'] + b;
    if a.len() > 0 {
        let rest = a.drop_first();
        assert(forall|i: int| 0 <= i < rest.len() ==> rest[i] == a[i + 1]);
        law_place_is_filled(rest, name, b, bindings);
        assert(t.drop_first() =~= rest + seq!['{'] + name + seq!['}'] + b);
        assert(t[0] == a[0]);
        assert(seq![a[0]] + (rest + value_of(bindings, name) + expand(b, bindings)) =~= a
            + value_of(bindings, name) + expand(b, bindings));
    } else {
        let tail = t.drop_first();
        assert(t[0] == '{');
        assert(t[1] == name[0]);
        let n = name.len() as int;
        assert forall|i: int| 0 <= i < n implies #[trigger] tail[i] != '}' by {
            assert(tail[i] == name[i]);
        }
        assert(tail[n] == '}');
        lemma_name_len(tail, n);
        assert(t.subrange(1, 1 + n) =~= name);
        assert(t.skip(n + 2) =~= b);
        assert(a + value_of(bindings, name) + expand(b, bindings) =~= value_of(bindings, name)
            + expand(b, bindings));
    }
}

} // verus!
