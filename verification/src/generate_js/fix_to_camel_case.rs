use vstd::prelude::*;
use crate::text::{join_with, push_char, split_chars, split_str, to_upper_char, upper_char};

verus! {

/// The text with its first character mapped to ASCII upper case.
pub open spec fn first_up_spec(s: Seq<char>) -> Seq<char> {
    if s.len() == 0 {
        s
    } else {
        seq![upper_char(s[0])] + s.skip(1)
    }
}

/// Maps the first character of a word to upper case.
pub fn first_letter_to_up(name: &str) -> (r: String)
    ensures
        r@ == first_up_spec(name@),
{
    let len: usize = name.unicode_len();
    if len == 0 {
        let r = String::new();
        proof {
            assert(r@ =~= name@);
        }
        return r;
    }
    let mut r = String::new();
    push_char(&mut r, to_upper_char(name.get_char(0)));
    let rest = name.substring_char(1, len);
    r.append(rest);
    proof {
        assert(r@ =~= first_up_spec(name@));
    }
    r
}

/// The camel-case identifier for a `-`-separated parameter name: the first
/// chunk unchanged, every further chunk capitalized, all joined.
pub open spec fn camel_spec(s: Seq<char>) -> Seq<char> {
    let parts = split_chars(s, '-');
    parts[0] + camel_tail(parts.skip(1))
}

/// Capitalized chunks, concatenated.
pub open spec fn camel_tail(parts: Seq<Seq<char>>) -> Seq<char>
    decreases parts,
{
    if parts.len() == 0 {
        Seq::empty()
    } else {
        first_up_spec(parts[0]) + camel_tail(parts.drop_first())
    }
}

/// Turns a `-`-separated parameter name into the camel-case identifier the
/// generated code uses.
#[verifier::loop_isolation(false)]
pub fn fix_to_camel_case(param_name: &String) -> (r: String)
    ensures
        r@ == camel_spec(param_name@),
{
    let parts = split_str(param_name.as_str(), '-');
    let ghost pv = parts.deep_view();
    proof {
        crate::utils::lemma_split_chars_nonempty(param_name@, '-');
    }
    let mut r = parts[0].clone();
    let mut i: usize = 1;
    proof {
        assert(pv[0] == parts@[0]@);
        assert(pv.skip(1).skip(0) =~= pv.skip(1));
        assert(camel_tail(pv.skip(1)) == camel_tail(pv.skip(1).skip(0)));
        assert(r@ + camel_tail(pv.skip(1)) =~= pv[0] + camel_tail(pv.skip(1)));
    }
    while i < parts.len()
        invariant
            1 <= i <= parts@.len(),
            pv.len() == parts@.len(),
            camel_spec(param_name@) == r@ + camel_tail(pv.skip(i as int)),
        decreases parts@.len() - i,
    {
        proof {
            assert(pv.skip(i as int)[0] == pv[i as int]);
            assert(pv[i as int] == parts@[i as int]@);
            assert(pv.skip(i as int).drop_first() =~= pv.skip(i + 1));
        }
        let ghost r0 = r@;
        let up = first_letter_to_up(parts[i].as_str());
        r.append(up.as_str());
        proof {
            assert(camel_tail(pv.skip(i as int)) == first_up_spec(pv[i as int]) + camel_tail(
                pv.skip(i + 1),
            ));
            assert(r0 + (first_up_spec(pv[i as int]) + camel_tail(pv.skip(i + 1))) =~= (r0
                + first_up_spec(pv[i as int])) + camel_tail(pv.skip(i + 1)));
        }
        i = i + 1;
    }
    proof {
        assert(pv.skip(i as int).len() == 0);
        assert(camel_tail(pv.skip(i as int)) =~= Seq::<char>::empty());
        assert(r@ + Seq::<char>::empty() =~= r@);
    }
    r
}

} // verus!
