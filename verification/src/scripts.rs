use crate::text::chars_of;
use crate::text::texts;
use vstd::prelude::*;
use vstd::seq_lib::to_multiset_build;
use vstd::seq_lib::to_multiset_insert;
use vstd::utf8::char_u32_cast;

verus! {

/// Whether a file name has the extension `lua`: it ends with `.lua`, and
/// something stands before that.
pub open spec fn is_lua_name(name: Seq<char>) -> bool {
    name.len() > 4 && name.skip(name.len() - 4) == seq!['.', 'l', 'u', 'a']
}

/// Whether a file name has the extension `lua`.
pub fn is_lua_file(name: &str) -> (lua: bool)
    ensures
        lua == is_lua_name(name@),
{
    let chars = chars_of(name);
    let n = chars.len();
    if n <= 4 {
        return false;
    }
    let lua = chars[n - 4] == '.' && chars[n - 3] == 'l' && chars[n - 2] == 'u' && chars[n - 1]
        == 'a';
    proof {
        let tail = name@.skip(n - 4);
        assert(tail.len() == 4);
        assert(tail[0] == name@[n - 4]);
        assert(tail[1] == name@[n - 3]);
        assert(tail[2] == name@[n - 2]);
        assert(tail[3] == name@[n - 1]);
        if lua {
            assert(tail == seq!['.', 'l', 'u', 'a']);
        }
    }
    lua
}

/// Whether `a` comes before `b` or equals it in lexicographic order, the
/// characters taken by their code points.
pub open spec fn lex_le(a: Seq<char>, b: Seq<char>) -> bool
    decreases a.len(),
{
    if a.len() == 0 {
        true
    } else if b.len() == 0 {
        false
    } else if a[0] != b[0] {
        (a[0] as u32) < (b[0] as u32)
    } else {
        lex_le(a.skip(1), b.skip(1))
    }
}

/// Of two texts one comes before the other, or they are equal.
pub proof fn lemma_lex_le_total(a: Seq<char>, b: Seq<char>)
    ensures
        lex_le(a, b) || lex_le(b, a),
    decreases a.len(),
{
    if a.len() > 0 && b.len() > 0 {
        if a[0] == b[0] {
            lemma_lex_le_total(a.skip(1), b.skip(1));
        } else {
            char_u32_cast(a[0], a[0] as u32);
            char_u32_cast(b[0], b[0] as u32);
        }
    }
}

/// What comes before a text comes before everything after that text.
pub proof fn lemma_lex_le_transitive(a: Seq<char>, b: Seq<char>, c: Seq<char>)
    requires
        lex_le(a, b),
        lex_le(b, c),
    ensures
        lex_le(a, c),
    decreases a.len(),
{
    if a.len() > 0 && b.len() > 0 && c.len() > 0 && a[0] == b[0] && b[0] == c[0] {
        lemma_lex_le_transitive(a.skip(1), b.skip(1), c.skip(1));
    }
}

/// Two texts that each come before the other are the same text: so the
/// order of a list of names is determined by the names in it.
pub proof fn lemma_lex_le_antisymmetric(a: Seq<char>, b: Seq<char>)
    requires
        lex_le(a, b),
        lex_le(b, a),
    ensures
        a == b,
    decreases a.len(),
{
    if a.len() > 0 && b.len() > 0 {
        lemma_lex_le_antisymmetric(a.skip(1), b.skip(1));
        assert(a == seq![a[0]] + a.skip(1));
        assert(b == seq![b[0]] + b.skip(1));
    } else {
        assert(a == b);
    }
}

/// Whether `a` comes before `b` or equals it in lexicographic order.
pub fn comes_before(a: &str, b: &str) -> (before: bool)
    ensures
        before == lex_le(a@, b@),
{
    let x = chars_of(a);
    let y = chars_of(b);
    let mut i: usize = 0;
    proof {
        assert(a@.skip(0) == a@);
        assert(b@.skip(0) == b@);
    }
    while i < x.len() && i < y.len()
        invariant
            x@ == a@,
            y@ == b@,
            i <= x.len(),
            i <= y.len(),
            lex_le(a@, b@) == lex_le(a@.skip(i as int), b@.skip(i as int)),
        decreases x.len() - i,
    {
        proof {
            assert(a@.skip(i as int).skip(1) == a@.skip(i + 1));
            assert(b@.skip(i as int).skip(1) == b@.skip(i + 1));
            assert(a@.skip(i as int)[0] == a@[i as int]);
            assert(b@.skip(i as int)[0] == b@[i as int]);
        }
        if x[i] != y[i] {
            return (x[i] as u32) < (y[i] as u32);
        }
        i += 1;
    }
    i == x.len()
}

/// Whether a list of texts is in lexicographic order.
pub open spec fn in_order(names: Seq<Seq<char>>) -> bool {
    forall|i: int, j: int| 0 <= i < j < names.len() ==> lex_le(names[i], names[j])
}

/// The scripts among the file names of a directory, in the order in which
/// they are run: the names with the extension `lua`, in lexicographic
/// order. Other files are left out.
pub fn script_order(names: &Vec<String>) -> (ordered: Vec<String>)
    ensures
        in_order(texts(ordered@)),
        texts(ordered@).to_multiset() == texts(names@).filter(
            |name: Seq<char>| is_lua_name(name),
        ).to_multiset(),
{
    let ghost lua = |name: Seq<char>| is_lua_name(name);
    let ghost all = texts(names@);
    let mut ordered: Vec<String> = Vec::new();
    let mut i: usize = 0;
    proof {
        assert(all.take(0) == Seq::<Seq<char>>::empty());
        reveal(Seq::filter);
        assert(all.take(0).filter(lua) == Seq::<Seq<char>>::empty());
        assert(texts(ordered@) == Seq::<Seq<char>>::empty());
    }
    while i < names.len()
        invariant
            i <= names.len(),
            all == texts(names@),
            lua == |name: Seq<char>| is_lua_name(name),
            in_order(texts(ordered@)),
            texts(ordered@).to_multiset() == all.take(i as int).filter(lua).to_multiset(),
        decreases names.len() - i,
    {
        let name = names[i].as_str();
        proof {
            assert(all.take(i + 1) == all.take(i as int).push(name@));
            all.take(i as int).lemma_filter_push(name@, lua);
        }
        if is_lua_file(name) {
            let mut place: usize = 0;
            while place < ordered.len() && comes_before(ordered[place].as_str(), name)
                invariant
                    place <= ordered.len(),
                    forall|j: int| 0 <= j < place ==> lex_le(#[trigger] texts(ordered@)[j], name@),
                decreases ordered.len() - place,
            {
                place += 1;
            }
            let ghost before = texts(ordered@);
            let owned = name.to_owned();
            proof {
                let after = before.insert(place as int, name@);
                assert(texts(ordered@.insert(place as int, owned)) == after);
                to_multiset_insert(before, place as int, name@);
                to_multiset_build(all.take(i as int).filter(lua), name@);
                assert forall|a: int, b: int| 0 <= a < b < after.len() implies lex_le(
                    after[a],
                    after[b],
                ) by {
                    if b == place {
                        assert(after[a] == before[a]);
                    } else if a == place {
                        assert(after[b] == before[b - 1]);
                        lemma_lex_le_total(before[place as int], name@);
                        if b - 1 > place {
                            lemma_lex_le_transitive(name@, before[place as int], before[b - 1]);
                        }
                    } else {
                        let a0 = if a < place { a } else { a - 1 };
                        let b0 = if b < place { b } else { b - 1 };
                        assert(after[a] == before[a0]);
                        assert(after[b] == before[b0]);
                    }
                }
            }
            ordered.insert(place, owned);
        }
        i += 1;
    }
    proof {
        assert(all.take(names.len() as int) == all);
    }
    ordered
}

} // verus!
