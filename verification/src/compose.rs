//! Composing the prompt body handed to the release-note generator.

use vstd::prelude::*;
use vstd::string::*;

verus! {

/// The lines joined with single newlines between them.
pub open spec fn spec_joined(ls: Seq<Seq<char>>) -> Seq<char>
    decreases ls.len(),
{
    if ls.len() == 0 {
        Seq::empty()
    } else if ls.len() == 1 {
        ls[0]
    } else {
        ls[0] + seq!['\n'] + spec_joined(ls.drop_first())
    }
}

pub proof fn lemma_joined_push(ls: Seq<Seq<char>>, x: Seq<char>)
    ensures
        ls.len() == 0 ==> spec_joined(ls.push(x)) == x,
        ls.len() > 0 ==> spec_joined(ls.push(x)) == spec_joined(ls) + seq!['\n'] + x,
    decreases ls.len(),
{
    if ls.len() == 0 {
        assert(ls.push(x).len() == 1);
        assert(ls.push(x)[0] == x);
    } else {
        assert(ls.push(x).drop_first() =~= ls.drop_first().push(x));
        lemma_joined_push(ls.drop_first(), x);
        assert(ls.push(x)[0] == ls[0]);
        if ls.len() == 1 {
            assert(spec_joined(ls.push(x)) =~= ls[0] + seq!['\n'] + x);
            assert(spec_joined(ls) + seq!['\n'] + x =~= ls[0] + seq!['\n'] + x);
        } else {
            assert(spec_joined(ls.push(x)) =~= ls[0] + seq!['\n'] + (spec_joined(ls.drop_first())
                + seq!['\n'] + x));
            assert(spec_joined(ls) + seq!['\n'] + x =~= ls[0] + seq!['\n'] + (spec_joined(
                ls.drop_first(),
            ) + seq!['\n'] + x));
        }
    }
}

/// Join display lines with single newlines into one prompt body.
pub fn join_lines(lines: &Vec<String>) -> (r: String)
    ensures
        r@ == spec_joined(lines.deep_view()),
{
    let mut s = String::new();
    let n = lines.len();
    let mut i: usize = 0;
    while i < n
        invariant
            i <= n,
            n == lines@.len(),
            s@ == spec_joined(lines.deep_view().take(i as int)),
        decreases n - i,
    {
        let ghost prefix = lines.deep_view().take(i as int);
        if i > 0 {
            s.append("\n");
        }
        s.append(lines[i].as_str());
        proof {
            reveal_strlit("\n");
            lemma_joined_push(prefix, lines@[i as int]@);
            assert(lines.deep_view().take(i + 1) =~= prefix.push(lines@[i as int]@));
            assert("\n"@ =~= seq!['\n']);
            if i > 0 {
                assert(s@ =~= spec_joined(prefix) + seq!['\n'] + lines@[i as int]@);
            } else {
                assert(s@ =~= lines@[i as int]@);
            }
        }
        i += 1;
    }
    proof {
        assert(lines.deep_view().take(n as int) =~= lines.deep_view());
    }
    s
}

} // verus!
