use vstd::prelude::*;

verus! {

/// A parser that hands source text to an external JavaScript parser and
/// reads back its ESTree output; this is where it keeps that parser's script.
#[derive(Debug)]
pub struct NodejsParser {
    pub espath: String,
}

impl NodejsParser {
    /// A parser whose script has not been put in place yet.
    pub fn new() -> (r: NodejsParser)
        ensures
            r.espath@.len() == 0,
    {
        NodejsParser { espath: String::new() }
    }
}

} // verus!
