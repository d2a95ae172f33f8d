//! Reading the output path out of the linker argument vector.

use vstd::prelude::*;

use crate::errors::{ConfigIssue, Error};

verus! {

/// The argument following the first `-o` flag, if that flag has one.
pub open spec fn spec_o_value(args: Seq<Seq<char>>) -> Option<Seq<char>>
    decreases args.len(),
{
    if args.len() == 0 {
        None
    } else if args[0] == "-o"@ {
        if args.len() >= 2 {
            Some(args[1])
        } else {
            None
        }
    } else {
        spec_o_value(args.drop_first())
    }
}

/// Returns the value of the `-o` flag: the argument that follows the first
/// `-o` in the linker argument vector the tool received.
pub fn get_o_value(args: &Vec<String>) -> (r: Result<String, Error>)
    ensures
        r matches Ok(p) ==> spec_o_value(args.deep_view()) == Some(p@),
        r is Err <==> spec_o_value(args.deep_view()) is None,
        r matches Err(e) ==> e == Error::Config(ConfigIssue::MissingOutputFlag),
{
    let key: String = "-o".to_owned();
    let n = args.len();
    let mut i: usize = 0;
    proof {
        assert(args.deep_view().skip(0) =~= args.deep_view());
    }
    while i < n
        invariant
            0 <= i <= n,
            n == args.len(),
            key@ == "-o"@,
            spec_o_value(args.deep_view()) == spec_o_value(args.deep_view().skip(i as int)),
        decreases n - i,
    {
        proof {
            assert(args.deep_view().skip(i as int)[0] == args.deep_view()[i as int]);
            assert(args.deep_view()[i as int] == args@[i as int]@);
        }
        let a = &args[i];
        if a.eq(&key) {
            if i + 1 < n {
                proof {
                    assert(args.deep_view().skip(i as int)[1] == args.deep_view()[i + 1]);
                    assert(args.deep_view()[i + 1] == args@[i + 1]@);
                }
                return Ok(args[i + 1].clone());
            } else {
                proof {
                    assert(args.deep_view().skip(i as int).len() == 1);
                }
                return Err(Error::Config(ConfigIssue::MissingOutputFlag));
            }
        }
        proof {
            assert(args.deep_view().skip(i as int).drop_first() =~= args.deep_view().skip(i + 1));
        }
        i = i + 1;
    }
    proof {
        assert(args.deep_view().skip(n as int) =~= Seq::<Seq<char>>::empty());
    }
    Err(Error::Config(ConfigIssue::MissingOutputFlag))
}

} // verus!
