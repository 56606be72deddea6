//! The name of a commodity, printed as hledger expects it.

use vstd::prelude::*;
use crate::text::{chars_of, contains_char};

verus! {

/// How a commodity name is written in a journal: quoted when it contains a
/// space, as is otherwise.
pub open spec fn commodity_str(name: Seq<char>) -> Seq<char> {
    if name.contains(' ') {
        seq!['"'] + name + seq!['"']
    } else {
        name
    }
}

/// A commodity, such as `SEK` or `Gold Bar`.
#[derive(Clone, Debug, Hash, PartialEq)]
pub struct Commodity {
    pub name: String,
}

impl Commodity {
    /// The name as written in a journal, e.g. `SEK` or `"Gold Bar"`.
    pub fn to_string(&self) -> (r: String)
        ensures
            r@ == commodity_str(self.name@),
    {
        let cs = chars_of(self.name.as_str());
        if contains_char(&cs, ' ') {
            let mut s = "\"".to_owned();
            proof {
                reveal_strlit("\"");
            }
            s.append(self.name.as_str());
            s.push('"');
            assert(s@ =~= seq!['"'] + self.name@ + seq!['"']);
            s
        } else {
            self.name.clone()
        }
    }
}

} // verus!
