//! Stable identifiers of the lint rules.
use crate::text::unicode::str_eq;
use vstd::prelude::*;
use vstd::string::StringExecFns;

verus! {

/// A lint rule.
#[derive(Debug, Clone, Copy, PartialEq, Eq, Hash, PartialOrd, Ord, Structural)]
pub enum RuleId {
    Acr001,
    Acr002,
    Term001,
    Term002,
    Style001,
    Func001,
    Func002,
    Style002,
    Syn001,
    Syn002,
    Syn003,
    Syn004,
    Syn005,
    Case001,
    Punc002,
}

impl RuleId {
    /// The rule's name as written in configuration and output.
    pub open spec fn spec_name(self) -> Seq<char> {
        match self {
            RuleId::Acr001 => "ACR001"@,
            RuleId::Acr002 => "ACR002"@,
            RuleId::Term001 => "TERM001"@,
            RuleId::Term002 => "TERM002"@,
            RuleId::Style001 => "STYLE001"@,
            RuleId::Func001 => "FUNC001"@,
            RuleId::Func002 => "FUNC002"@,
            RuleId::Style002 => "STYLE002"@,
            RuleId::Syn001 => "SYN001"@,
            RuleId::Syn002 => "SYN002"@,
            RuleId::Syn003 => "SYN003"@,
            RuleId::Syn004 => "SYN004"@,
            RuleId::Syn005 => "SYN005"@,
            RuleId::Case001 => "CASE001"@,
            RuleId::Punc002 => "PUNC002"@,
        }
    }

    /// The rule's name, such as `ACR001`.
    pub fn as_str(self) -> (name: &'static str)
        ensures
            name@ == self.spec_name(),
    {
        match self {
            RuleId::Acr001 => "ACR001",
            RuleId::Acr002 => "ACR002",
            RuleId::Term001 => "TERM001",
            RuleId::Term002 => "TERM002",
            RuleId::Style001 => "STYLE001",
            RuleId::Func001 => "FUNC001",
            RuleId::Func002 => "FUNC002",
            RuleId::Style002 => "STYLE002",
            RuleId::Syn001 => "SYN001",
            RuleId::Syn002 => "SYN002",
            RuleId::Syn003 => "SYN003",
            RuleId::Syn004 => "SYN004",
            RuleId::Syn005 => "SYN005",
            RuleId::Case001 => "CASE001",
            RuleId::Punc002 => "PUNC002",
        }
    }

    /// Every rule, in documentation order.
    pub fn all() -> (ids: Vec<RuleId>)
        ensures
            ids@ == seq![
                RuleId::Acr001,
                RuleId::Acr002,
                RuleId::Term001,
                RuleId::Term002,
                RuleId::Style001,
                RuleId::Func001,
                RuleId::Func002,
                RuleId::Style002,
                RuleId::Syn001,
                RuleId::Syn002,
                RuleId::Syn003,
                RuleId::Syn004,
                RuleId::Syn005,
                RuleId::Case001,
                RuleId::Punc002,
            ],
    {
        let mut ids: Vec<RuleId> = Vec::new();
        ids.push(RuleId::Acr001);
        ids.push(RuleId::Acr002);
        ids.push(RuleId::Term001);
        ids.push(RuleId::Term002);
        ids.push(RuleId::Style001);
        ids.push(RuleId::Func001);
        ids.push(RuleId::Func002);
        ids.push(RuleId::Style002);
        ids.push(RuleId::Syn001);
        ids.push(RuleId::Syn002);
        ids.push(RuleId::Syn003);
        ids.push(RuleId::Syn004);
        ids.push(RuleId::Syn005);
        ids.push(RuleId::Case001);
        ids.push(RuleId::Punc002);
        ids
    }

    /// Parses a rule name; names are case-sensitive.
    pub fn parse(value: &str) -> (r: Result<RuleId, ParseRuleIdError>)
        ensures
            match r {
                Ok(id) => id.spec_name() == value@,
                Err(e) => e.spec_value() == value@ && forall|id: RuleId| #[trigger] id.spec_name() != value@,
            },
    {
        let ids = RuleId::all();
        let mut i: usize = 0;
        while i < ids.len()
            invariant
                ids@ == seq![
                    RuleId::Acr001,
                    RuleId::Acr002,
                    RuleId::Term001,
                    RuleId::Term002,
                    RuleId::Style001,
                    RuleId::Func001,
                    RuleId::Func002,
                    RuleId::Style002,
                    RuleId::Syn001,
                    RuleId::Syn002,
                    RuleId::Syn003,
                    RuleId::Syn004,
                    RuleId::Syn005,
                    RuleId::Case001,
                    RuleId::Punc002,
                ],
                i <= ids.len(),
                forall|k: int| 0 <= k < i ==> (#[trigger] ids@[k]).spec_name() != value@,
            decreases ids.len() - i,
        {
            if str_eq(ids[i].as_str(), value) {
                return Ok(ids[i]);
            }
            i = i + 1;
        }
        proof {
            assert forall|id: RuleId| #[trigger] id.spec_name() != value@ by {
                match id {
                    RuleId::Acr001 => {
            assert(ids@[0] == id);
        },
                    RuleId::Acr002 => {
            assert(ids@[1] == id);
        },
                    RuleId::Term001 => {
            assert(ids@[2] == id);
        },
                    RuleId::Term002 => {
            assert(ids@[3] == id);
        },
                    RuleId::Style001 => {
            assert(ids@[4] == id);
        },
                    RuleId::Func001 => {
            assert(ids@[5] == id);
        },
                    RuleId::Func002 => {
            assert(ids@[6] == id);
        },
                    RuleId::Style002 => {
            assert(ids@[7] == id);
        },
                    RuleId::Syn001 => {
            assert(ids@[8] == id);
        },
                    RuleId::Syn002 => {
            assert(ids@[9] == id);
        },
                    RuleId::Syn003 => {
            assert(ids@[10] == id);
        },
                    RuleId::Syn004 => {
            assert(ids@[11] == id);
        },
                    RuleId::Syn005 => {
            assert(ids@[12] == id);
        },
                    RuleId::Case001 => {
            assert(ids@[13] == id);
        },
                    RuleId::Punc002 => {
            assert(ids@[14] == id);
        },
                }
            }
        }
        Err(ParseRuleIdError { value: value.to_owned() })
    }
}

proof fn lemma_only_acr001(b: RuleId)
    requires
        RuleId::Acr001.spec_name() == b.spec_name(),
    ensures
        b == RuleId::Acr001,
{
    match b {
        RuleId::Acr001 => {},
        RuleId::Acr002 => {
            reveal_strlit("ACR001");
            reveal_strlit("ACR002");
            assert("ACR001"@[5] != "ACR002"@[5]);
        },
        RuleId::Term001 => {
            reveal_strlit("ACR001");
            reveal_strlit("TERM001");
            assert("ACR001"@.len() != "TERM001"@.len());
        },
        RuleId::Term002 => {
            reveal_strlit("ACR001");
            reveal_strlit("TERM002");
            assert("ACR001"@.len() != "TERM002"@.len());
        },
        RuleId::Style001 => {
            reveal_strlit("ACR001");
            reveal_strlit("STYLE001");
            assert("ACR001"@.len() != "STYLE001"@.len());
        },
        RuleId::Func001 => {
            reveal_strlit("ACR001");
            reveal_strlit("FUNC001");
            assert("ACR001"@.len() != "FUNC001"@.len());
        },
        RuleId::Func002 => {
            reveal_strlit("ACR001");
            reveal_strlit("FUNC002");
            assert("ACR001"@.len() != "FUNC002"@.len());
        },
        RuleId::Style002 => {
            reveal_strlit("ACR001");
            reveal_strlit("STYLE002");
            assert("ACR001"@.len() != "STYLE002"@.len());
        },
        RuleId::Syn001 => {
            reveal_strlit("ACR001");
            reveal_strlit("SYN001");
            assert("ACR001"@[0] != "SYN001"@[0]);
        },
        RuleId::Syn002 => {
            reveal_strlit("ACR001");
            reveal_strlit("SYN002");
            assert("ACR001"@[0] != "SYN002"@[0]);
        },
        RuleId::Syn003 => {
            reveal_strlit("ACR001");
            reveal_strlit("SYN003");
            assert("ACR001"@[0] != "SYN003"@[0]);
        },
        RuleId::Syn004 => {
            reveal_strlit("ACR001");
            reveal_strlit("SYN004");
            assert("ACR001"@[0] != "SYN004"@[0]);
        },
        RuleId::Syn005 => {
            reveal_strlit("ACR001");
            reveal_strlit("SYN005");
            assert("ACR001"@[0] != "SYN005"@[0]);
        },
        RuleId::Case001 => {
            reveal_strlit("ACR001");
            reveal_strlit("CASE001");
            assert("ACR001"@.len() != "CASE001"@.len());
        },
        RuleId::Punc002 => {
            reveal_strlit("ACR001");
            reveal_strlit("PUNC002");
            assert("ACR001"@.len() != "PUNC002"@.len());
        },
    }
}

proof fn lemma_only_acr002(b: RuleId)
    requires
        RuleId::Acr002.spec_name() == b.spec_name(),
    ensures
        b == RuleId::Acr002,
{
    match b {
        RuleId::Acr001 => {
            reveal_strlit("ACR002");
            reveal_strlit("ACR001");
            assert("ACR002"@[5] != "ACR001"@[5]);
        },
        RuleId::Acr002 => {},
        RuleId::Term001 => {
            reveal_strlit("ACR002");
            reveal_strlit("TERM001");
            assert("ACR002"@.len() != "TERM001"@.len());
        },
        RuleId::Term002 => {
            reveal_strlit("ACR002");
            reveal_strlit("TERM002");
            assert("ACR002"@.len() != "TERM002"@.len());
        },
        RuleId::Style001 => {
            reveal_strlit("ACR002");
            reveal_strlit("STYLE001");
            assert("ACR002"@.len() != "STYLE001"@.len());
        },
        RuleId::Func001 => {
            reveal_strlit("ACR002");
            reveal_strlit("FUNC001");
            assert("ACR002"@.len() != "FUNC001"@.len());
        },
        RuleId::Func002 => {
            reveal_strlit("ACR002");
            reveal_strlit("FUNC002");
            assert("ACR002"@.len() != "FUNC002"@.len());
        },
        RuleId::Style002 => {
            reveal_strlit("ACR002");
            reveal_strlit("STYLE002");
            assert("ACR002"@.len() != "STYLE002"@.len());
        },
        RuleId::Syn001 => {
            reveal_strlit("ACR002");
            reveal_strlit("SYN001");
            assert("ACR002"@[0] != "SYN001"@[0]);
        },
        RuleId::Syn002 => {
            reveal_strlit("ACR002");
            reveal_strlit("SYN002");
            assert("ACR002"@[0] != "SYN002"@[0]);
        },
        RuleId::Syn003 => {
            reveal_strlit("ACR002");
            reveal_strlit("SYN003");
            assert("ACR002"@[0] != "SYN003"@[0]);
        },
        RuleId::Syn004 => {
            reveal_strlit("ACR002");
            reveal_strlit("SYN004");
            assert("ACR002"@[0] != "SYN004"@[0]);
        },
        RuleId::Syn005 => {
            reveal_strlit("ACR002");
            reveal_strlit("SYN005");
            assert("ACR002"@[0] != "SYN005"@[0]);
        },
        RuleId::Case001 => {
            reveal_strlit("ACR002");
            reveal_strlit("CASE001");
            assert("ACR002"@.len() != "CASE001"@.len());
        },
        RuleId::Punc002 => {
            reveal_strlit("ACR002");
            reveal_strlit("PUNC002");
            assert("ACR002"@.len() != "PUNC002"@.len());
        },
    }
}

proof fn lemma_only_term001(b: RuleId)
    requires
        RuleId::Term001.spec_name() == b.spec_name(),
    ensures
        b == RuleId::Term001,
{
    match b {
        RuleId::Acr001 => {
            reveal_strlit("TERM001");
            reveal_strlit("ACR001");
            assert("TERM001"@.len() != "ACR001"@.len());
        },
        RuleId::Acr002 => {
            reveal_strlit("TERM001");
            reveal_strlit("ACR002");
            assert("TERM001"@.len() != "ACR002"@.len());
        },
        RuleId::Term001 => {},
        RuleId::Term002 => {
            reveal_strlit("TERM001");
            reveal_strlit("TERM002");
            assert("TERM001"@[6] != "TERM002"@[6]);
        },
        RuleId::Style001 => {
            reveal_strlit("TERM001");
            reveal_strlit("STYLE001");
            assert("TERM001"@.len() != "STYLE001"@.len());
        },
        RuleId::Func001 => {
            reveal_strlit("TERM001");
            reveal_strlit("FUNC001");
            assert("TERM001"@[0] != "FUNC001"@[0]);
        },
        RuleId::Func002 => {
            reveal_strlit("TERM001");
            reveal_strlit("FUNC002");
            assert("TERM001"@[0] != "FUNC002"@[0]);
        },
        RuleId::Style002 => {
            reveal_strlit("TERM001");
            reveal_strlit("STYLE002");
            assert("TERM001"@.len() != "STYLE002"@.len());
        },
        RuleId::Syn001 => {
            reveal_strlit("TERM001");
            reveal_strlit("SYN001");
            assert("TERM001"@.len() != "SYN001"@.len());
        },
        RuleId::Syn002 => {
            reveal_strlit("TERM001");
            reveal_strlit("SYN002");
            assert("TERM001"@.len() != "SYN002"@.len());
        },
        RuleId::Syn003 => {
            reveal_strlit("TERM001");
            reveal_strlit("SYN003");
            assert("TERM001"@.len() != "SYN003"@.len());
        },
        RuleId::Syn004 => {
            reveal_strlit("TERM001");
            reveal_strlit("SYN004");
            assert("TERM001"@.len() != "SYN004"@.len());
        },
        RuleId::Syn005 => {
            reveal_strlit("TERM001");
            reveal_strlit("SYN005");
            assert("TERM001"@.len() != "SYN005"@.len());
        },
        RuleId::Case001 => {
            reveal_strlit("TERM001");
            reveal_strlit("CASE001");
            assert("TERM001"@[0] != "CASE001"@[0]);
        },
        RuleId::Punc002 => {
            reveal_strlit("TERM001");
            reveal_strlit("PUNC002");
            assert("TERM001"@[0] != "PUNC002"@[0]);
        },
    }
}

proof fn lemma_only_term002(b: RuleId)
    requires
        RuleId::Term002.spec_name() == b.spec_name(),
    ensures
        b == RuleId::Term002,
{
    match b {
        RuleId::Acr001 => {
            reveal_strlit("TERM002");
            reveal_strlit("ACR001");
            assert("TERM002"@.len() != "ACR001"@.len());
        },
        RuleId::Acr002 => {
            reveal_strlit("TERM002");
            reveal_strlit("ACR002");
            assert("TERM002"@.len() != "ACR002"@.len());
        },
        RuleId::Term001 => {
            reveal_strlit("TERM002");
            reveal_strlit("TERM001");
            assert("TERM002"@[6] != "TERM001"@[6]);
        },
        RuleId::Term002 => {},
        RuleId::Style001 => {
            reveal_strlit("TERM002");
            reveal_strlit("STYLE001");
            assert("TERM002"@.len() != "STYLE001"@.len());
        },
        RuleId::Func001 => {
            reveal_strlit("TERM002");
            reveal_strlit("FUNC001");
            assert("TERM002"@[0] != "FUNC001"@[0]);
        },
        RuleId::Func002 => {
            reveal_strlit("TERM002");
            reveal_strlit("FUNC002");
            assert("TERM002"@[0] != "FUNC002"@[0]);
        },
        RuleId::Style002 => {
            reveal_strlit("TERM002");
            reveal_strlit("STYLE002");
            assert("TERM002"@.len() != "STYLE002"@.len());
        },
        RuleId::Syn001 => {
            reveal_strlit("TERM002");
            reveal_strlit("SYN001");
            assert("TERM002"@.len() != "SYN001"@.len());
        },
        RuleId::Syn002 => {
            reveal_strlit("TERM002");
            reveal_strlit("SYN002");
            assert("TERM002"@.len() != "SYN002"@.len());
        },
        RuleId::Syn003 => {
            reveal_strlit("TERM002");
            reveal_strlit("SYN003");
            assert("TERM002"@.len() != "SYN003"@.len());
        },
        RuleId::Syn004 => {
            reveal_strlit("TERM002");
            reveal_strlit("SYN004");
            assert("TERM002"@.len() != "SYN004"@.len());
        },
        RuleId::Syn005 => {
            reveal_strlit("TERM002");
            reveal_strlit("SYN005");
            assert("TERM002"@.len() != "SYN005"@.len());
        },
        RuleId::Case001 => {
            reveal_strlit("TERM002");
            reveal_strlit("CASE001");
            assert("TERM002"@[0] != "CASE001"@[0]);
        },
        RuleId::Punc002 => {
            reveal_strlit("TERM002");
            reveal_strlit("PUNC002");
            assert("TERM002"@[0] != "PUNC002"@[0]);
        },
    }
}

proof fn lemma_only_style001(b: RuleId)
    requires
        RuleId::Style001.spec_name() == b.spec_name(),
    ensures
        b == RuleId::Style001,
{
    match b {
        RuleId::Acr001 => {
            reveal_strlit("STYLE001");
            reveal_strlit("ACR001");
            assert("STYLE001"@.len() != "ACR001"@.len());
        },
        RuleId::Acr002 => {
            reveal_strlit("STYLE001");
            reveal_strlit("ACR002");
            assert("STYLE001"@.len() != "ACR002"@.len());
        },
        RuleId::Term001 => {
            reveal_strlit("STYLE001");
            reveal_strlit("TERM001");
            assert("STYLE001"@.len() != "TERM001"@.len());
        },
        RuleId::Term002 => {
            reveal_strlit("STYLE001");
            reveal_strlit("TERM002");
            assert("STYLE001"@.len() != "TERM002"@.len());
        },
        RuleId::Style001 => {},
        RuleId::Func001 => {
            reveal_strlit("STYLE001");
            reveal_strlit("FUNC001");
            assert("STYLE001"@.len() != "FUNC001"@.len());
        },
        RuleId::Func002 => {
            reveal_strlit("STYLE001");
            reveal_strlit("FUNC002");
            assert("STYLE001"@.len() != "FUNC002"@.len());
        },
        RuleId::Style002 => {
            reveal_strlit("STYLE001");
            reveal_strlit("STYLE002");
            assert("STYLE001"@[7] != "STYLE002"@[7]);
        },
        RuleId::Syn001 => {
            reveal_strlit("STYLE001");
            reveal_strlit("SYN001");
            assert("STYLE001"@.len() != "SYN001"@.len());
        },
        RuleId::Syn002 => {
            reveal_strlit("STYLE001");
            reveal_strlit("SYN002");
            assert("STYLE001"@.len() != "SYN002"@.len());
        },
        RuleId::Syn003 => {
            reveal_strlit("STYLE001");
            reveal_strlit("SYN003");
            assert("STYLE001"@.len() != "SYN003"@.len());
        },
        RuleId::Syn004 => {
            reveal_strlit("STYLE001");
            reveal_strlit("SYN004");
            assert("STYLE001"@.len() != "SYN004"@.len());
        },
        RuleId::Syn005 => {
            reveal_strlit("STYLE001");
            reveal_strlit("SYN005");
            assert("STYLE001"@.len() != "SYN005"@.len());
        },
        RuleId::Case001 => {
            reveal_strlit("STYLE001");
            reveal_strlit("CASE001");
            assert("STYLE001"@.len() != "CASE001"@.len());
        },
        RuleId::Punc002 => {
            reveal_strlit("STYLE001");
            reveal_strlit("PUNC002");
            assert("STYLE001"@.len() != "PUNC002"@.len());
        },
    }
}

proof fn lemma_only_func001(b: RuleId)
    requires
        RuleId::Func001.spec_name() == b.spec_name(),
    ensures
        b == RuleId::Func001,
{
    match b {
        RuleId::Acr001 => {
            reveal_strlit("FUNC001");
            reveal_strlit("ACR001");
            assert("FUNC001"@.len() != "ACR001"@.len());
        },
        RuleId::Acr002 => {
            reveal_strlit("FUNC001");
            reveal_strlit("ACR002");
            assert("FUNC001"@.len() != "ACR002"@.len());
        },
        RuleId::Term001 => {
            reveal_strlit("FUNC001");
            reveal_strlit("TERM001");
            assert("FUNC001"@[0] != "TERM001"@[0]);
        },
        RuleId::Term002 => {
            reveal_strlit("FUNC001");
            reveal_strlit("TERM002");
            assert("FUNC001"@[0] != "TERM002"@[0]);
        },
        RuleId::Style001 => {
            reveal_strlit("FUNC001");
            reveal_strlit("STYLE001");
            assert("FUNC001"@.len() != "STYLE001"@.len());
        },
        RuleId::Func001 => {},
        RuleId::Func002 => {
            reveal_strlit("FUNC001");
            reveal_strlit("FUNC002");
            assert("FUNC001"@[6] != "FUNC002"@[6]);
        },
        RuleId::Style002 => {
            reveal_strlit("FUNC001");
            reveal_strlit("STYLE002");
            assert("FUNC001"@.len() != "STYLE002"@.len());
        },
        RuleId::Syn001 => {
            reveal_strlit("FUNC001");
            reveal_strlit("SYN001");
            assert("FUNC001"@.len() != "SYN001"@.len());
        },
        RuleId::Syn002 => {
            reveal_strlit("FUNC001");
            reveal_strlit("SYN002");
            assert("FUNC001"@.len() != "SYN002"@.len());
        },
        RuleId::Syn003 => {
            reveal_strlit("FUNC001");
            reveal_strlit("SYN003");
            assert("FUNC001"@.len() != "SYN003"@.len());
        },
        RuleId::Syn004 => {
            reveal_strlit("FUNC001");
            reveal_strlit("SYN004");
            assert("FUNC001"@.len() != "SYN004"@.len());
        },
        RuleId::Syn005 => {
            reveal_strlit("FUNC001");
            reveal_strlit("SYN005");
            assert("FUNC001"@.len() != "SYN005"@.len());
        },
        RuleId::Case001 => {
            reveal_strlit("FUNC001");
            reveal_strlit("CASE001");
            assert("FUNC001"@[0] != "CASE001"@[0]);
        },
        RuleId::Punc002 => {
            reveal_strlit("FUNC001");
            reveal_strlit("PUNC002");
            assert("FUNC001"@[0] != "PUNC002"@[0]);
        },
    }
}

proof fn lemma_only_func002(b: RuleId)
    requires
        RuleId::Func002.spec_name() == b.spec_name(),
    ensures
        b == RuleId::Func002,
{
    match b {
        RuleId::Acr001 => {
            reveal_strlit("FUNC002");
            reveal_strlit("ACR001");
            assert("FUNC002"@.len() != "ACR001"@.len());
        },
        RuleId::Acr002 => {
            reveal_strlit("FUNC002");
            reveal_strlit("ACR002");
            assert("FUNC002"@.len() != "ACR002"@.len());
        },
        RuleId::Term001 => {
            reveal_strlit("FUNC002");
            reveal_strlit("TERM001");
            assert("FUNC002"@[0] != "TERM001"@[0]);
        },
        RuleId::Term002 => {
            reveal_strlit("FUNC002");
            reveal_strlit("TERM002");
            assert("FUNC002"@[0] != "TERM002"@[0]);
        },
        RuleId::Style001 => {
            reveal_strlit("FUNC002");
            reveal_strlit("STYLE001");
            assert("FUNC002"@.len() != "STYLE001"@.len());
        },
        RuleId::Func001 => {
            reveal_strlit("FUNC002");
            reveal_strlit("FUNC001");
            assert("FUNC002"@[6] != "FUNC001"@[6]);
        },
        RuleId::Func002 => {},
        RuleId::Style002 => {
            reveal_strlit("FUNC002");
            reveal_strlit("STYLE002");
            assert("FUNC002"@.len() != "STYLE002"@.len());
        },
        RuleId::Syn001 => {
            reveal_strlit("FUNC002");
            reveal_strlit("SYN001");
            assert("FUNC002"@.len() != "SYN001"@.len());
        },
        RuleId::Syn002 => {
            reveal_strlit("FUNC002");
            reveal_strlit("SYN002");
            assert("FUNC002"@.len() != "SYN002"@.len());
        },
        RuleId::Syn003 => {
            reveal_strlit("FUNC002");
            reveal_strlit("SYN003");
            assert("FUNC002"@.len() != "SYN003"@.len());
        },
        RuleId::Syn004 => {
            reveal_strlit("FUNC002");
            reveal_strlit("SYN004");
            assert("FUNC002"@.len() != "SYN004"@.len());
        },
        RuleId::Syn005 => {
            reveal_strlit("FUNC002");
            reveal_strlit("SYN005");
            assert("FUNC002"@.len() != "SYN005"@.len());
        },
        RuleId::Case001 => {
            reveal_strlit("FUNC002");
            reveal_strlit("CASE001");
            assert("FUNC002"@[0] != "CASE001"@[0]);
        },
        RuleId::Punc002 => {
            reveal_strlit("FUNC002");
            reveal_strlit("PUNC002");
            assert("FUNC002"@[0] != "PUNC002"@[0]);
        },
    }
}

proof fn lemma_only_style002(b: RuleId)
    requires
        RuleId::Style002.spec_name() == b.spec_name(),
    ensures
        b == RuleId::Style002,
{
    match b {
        RuleId::Acr001 => {
            reveal_strlit("STYLE002");
            reveal_strlit("ACR001");
            assert("STYLE002"@.len() != "ACR001"@.len());
        },
        RuleId::Acr002 => {
            reveal_strlit("STYLE002");
            reveal_strlit("ACR002");
            assert("STYLE002"@.len() != "ACR002"@.len());
        },
        RuleId::Term001 => {
            reveal_strlit("STYLE002");
            reveal_strlit("TERM001");
            assert("STYLE002"@.len() != "TERM001"@.len());
        },
        RuleId::Term002 => {
            reveal_strlit("STYLE002");
            reveal_strlit("TERM002");
            assert("STYLE002"@.len() != "TERM002"@.len());
        },
        RuleId::Style001 => {
            reveal_strlit("STYLE002");
            reveal_strlit("STYLE001");
            assert("STYLE002"@[7] != "STYLE001"@[7]);
        },
        RuleId::Func001 => {
            reveal_strlit("STYLE002");
            reveal_strlit("FUNC001");
            assert("STYLE002"@.len() != "FUNC001"@.len());
        },
        RuleId::Func002 => {
            reveal_strlit("STYLE002");
            reveal_strlit("FUNC002");
            assert("STYLE002"@.len() != "FUNC002"@.len());
        },
        RuleId::Style002 => {},
        RuleId::Syn001 => {
            reveal_strlit("STYLE002");
            reveal_strlit("SYN001");
            assert("STYLE002"@.len() != "SYN001"@.len());
        },
        RuleId::Syn002 => {
            reveal_strlit("STYLE002");
            reveal_strlit("SYN002");
            assert("STYLE002"@.len() != "SYN002"@.len());
        },
        RuleId::Syn003 => {
            reveal_strlit("STYLE002");
            reveal_strlit("SYN003");
            assert("STYLE002"@.len() != "SYN003"@.len());
        },
        RuleId::Syn004 => {
            reveal_strlit("STYLE002");
            reveal_strlit("SYN004");
            assert("STYLE002"@.len() != "SYN004"@.len());
        },
        RuleId::Syn005 => {
            reveal_strlit("STYLE002");
            reveal_strlit("SYN005");
            assert("STYLE002"@.len() != "SYN005"@.len());
        },
        RuleId::Case001 => {
            reveal_strlit("STYLE002");
            reveal_strlit("CASE001");
            assert("STYLE002"@.len() != "CASE001"@.len());
        },
        RuleId::Punc002 => {
            reveal_strlit("STYLE002");
            reveal_strlit("PUNC002");
            assert("STYLE002"@.len() != "PUNC002"@.len());
        },
    }
}

proof fn lemma_only_syn001(b: RuleId)
    requires
        RuleId::Syn001.spec_name() == b.spec_name(),
    ensures
        b == RuleId::Syn001,
{
    match b {
        RuleId::Acr001 => {
            reveal_strlit("SYN001");
            reveal_strlit("ACR001");
            assert("SYN001"@[0] != "ACR001"@[0]);
        },
        RuleId::Acr002 => {
            reveal_strlit("SYN001");
            reveal_strlit("ACR002");
            assert("SYN001"@[0] != "ACR002"@[0]);
        },
        RuleId::Term001 => {
            reveal_strlit("SYN001");
            reveal_strlit("TERM001");
            assert("SYN001"@.len() != "TERM001"@.len());
        },
        RuleId::Term002 => {
            reveal_strlit("SYN001");
            reveal_strlit("TERM002");
            assert("SYN001"@.len() != "TERM002"@.len());
        },
        RuleId::Style001 => {
            reveal_strlit("SYN001");
            reveal_strlit("STYLE001");
            assert("SYN001"@.len() != "STYLE001"@.len());
        },
        RuleId::Func001 => {
            reveal_strlit("SYN001");
            reveal_strlit("FUNC001");
            assert("SYN001"@.len() != "FUNC001"@.len());
        },
        RuleId::Func002 => {
            reveal_strlit("SYN001");
            reveal_strlit("FUNC002");
            assert("SYN001"@.len() != "FUNC002"@.len());
        },
        RuleId::Style002 => {
            reveal_strlit("SYN001");
            reveal_strlit("STYLE002");
            assert("SYN001"@.len() != "STYLE002"@.len());
        },
        RuleId::Syn001 => {},
        RuleId::Syn002 => {
            reveal_strlit("SYN001");
            reveal_strlit("SYN002");
            assert("SYN001"@[5] != "SYN002"@[5]);
        },
        RuleId::Syn003 => {
            reveal_strlit("SYN001");
            reveal_strlit("SYN003");
            assert("SYN001"@[5] != "SYN003"@[5]);
        },
        RuleId::Syn004 => {
            reveal_strlit("SYN001");
            reveal_strlit("SYN004");
            assert("SYN001"@[5] != "SYN004"@[5]);
        },
        RuleId::Syn005 => {
            reveal_strlit("SYN001");
            reveal_strlit("SYN005");
            assert("SYN001"@[5] != "SYN005"@[5]);
        },
        RuleId::Case001 => {
            reveal_strlit("SYN001");
            reveal_strlit("CASE001");
            assert("SYN001"@.len() != "CASE001"@.len());
        },
        RuleId::Punc002 => {
            reveal_strlit("SYN001");
            reveal_strlit("PUNC002");
            assert("SYN001"@.len() != "PUNC002"@.len());
        },
    }
}

proof fn lemma_only_syn002(b: RuleId)
    requires
        RuleId::Syn002.spec_name() == b.spec_name(),
    ensures
        b == RuleId::Syn002,
{
    match b {
        RuleId::Acr001 => {
            reveal_strlit("SYN002");
            reveal_strlit("ACR001");
            assert("SYN002"@[0] != "ACR001"@[0]);
        },
        RuleId::Acr002 => {
            reveal_strlit("SYN002");
            reveal_strlit("ACR002");
            assert("SYN002"@[0] != "ACR002"@[0]);
        },
        RuleId::Term001 => {
            reveal_strlit("SYN002");
            reveal_strlit("TERM001");
            assert("SYN002"@.len() != "TERM001"@.len());
        },
        RuleId::Term002 => {
            reveal_strlit("SYN002");
            reveal_strlit("TERM002");
            assert("SYN002"@.len() != "TERM002"@.len());
        },
        RuleId::Style001 => {
            reveal_strlit("SYN002");
            reveal_strlit("STYLE001");
            assert("SYN002"@.len() != "STYLE001"@.len());
        },
        RuleId::Func001 => {
            reveal_strlit("SYN002");
            reveal_strlit("FUNC001");
            assert("SYN002"@.len() != "FUNC001"@.len());
        },
        RuleId::Func002 => {
            reveal_strlit("SYN002");
            reveal_strlit("FUNC002");
            assert("SYN002"@.len() != "FUNC002"@.len());
        },
        RuleId::Style002 => {
            reveal_strlit("SYN002");
            reveal_strlit("STYLE002");
            assert("SYN002"@.len() != "STYLE002"@.len());
        },
        RuleId::Syn001 => {
            reveal_strlit("SYN002");
            reveal_strlit("SYN001");
            assert("SYN002"@[5] != "SYN001"@[5]);
        },
        RuleId::Syn002 => {},
        RuleId::Syn003 => {
            reveal_strlit("SYN002");
            reveal_strlit("SYN003");
            assert("SYN002"@[5] != "SYN003"@[5]);
        },
        RuleId::Syn004 => {
            reveal_strlit("SYN002");
            reveal_strlit("SYN004");
            assert("SYN002"@[5] != "SYN004"@[5]);
        },
        RuleId::Syn005 => {
            reveal_strlit("SYN002");
            reveal_strlit("SYN005");
            assert("SYN002"@[5] != "SYN005"@[5]);
        },
        RuleId::Case001 => {
            reveal_strlit("SYN002");
            reveal_strlit("CASE001");
            assert("SYN002"@.len() != "CASE001"@.len());
        },
        RuleId::Punc002 => {
            reveal_strlit("SYN002");
            reveal_strlit("PUNC002");
            assert("SYN002"@.len() != "PUNC002"@.len());
        },
    }
}

proof fn lemma_only_syn003(b: RuleId)
    requires
        RuleId::Syn003.spec_name() == b.spec_name(),
    ensures
        b == RuleId::Syn003,
{
    match b {
        RuleId::Acr001 => {
            reveal_strlit("SYN003");
            reveal_strlit("ACR001");
            assert("SYN003"@[0] != "ACR001"@[0]);
        },
        RuleId::Acr002 => {
            reveal_strlit("SYN003");
            reveal_strlit("ACR002");
            assert("SYN003"@[0] != "ACR002"@[0]);
        },
        RuleId::Term001 => {
            reveal_strlit("SYN003");
            reveal_strlit("TERM001");
            assert("SYN003"@.len() != "TERM001"@.len());
        },
        RuleId::Term002 => {
            reveal_strlit("SYN003");
            reveal_strlit("TERM002");
            assert("SYN003"@.len() != "TERM002"@.len());
        },
        RuleId::Style001 => {
            reveal_strlit("SYN003");
            reveal_strlit("STYLE001");
            assert("SYN003"@.len() != "STYLE001"@.len());
        },
        RuleId::Func001 => {
            reveal_strlit("SYN003");
            reveal_strlit("FUNC001");
            assert("SYN003"@.len() != "FUNC001"@.len());
        },
        RuleId::Func002 => {
            reveal_strlit("SYN003");
            reveal_strlit("FUNC002");
            assert("SYN003"@.len() != "FUNC002"@.len());
        },
        RuleId::Style002 => {
            reveal_strlit("SYN003");
            reveal_strlit("STYLE002");
            assert("SYN003"@.len() != "STYLE002"@.len());
        },
        RuleId::Syn001 => {
            reveal_strlit("SYN003");
            reveal_strlit("SYN001");
            assert("SYN003"@[5] != "SYN001"@[5]);
        },
        RuleId::Syn002 => {
            reveal_strlit("SYN003");
            reveal_strlit("SYN002");
            assert("SYN003"@[5] != "SYN002"@[5]);
        },
        RuleId::Syn003 => {},
        RuleId::Syn004 => {
            reveal_strlit("SYN003");
            reveal_strlit("SYN004");
            assert("SYN003"@[5] != "SYN004"@[5]);
        },
        RuleId::Syn005 => {
            reveal_strlit("SYN003");
            reveal_strlit("SYN005");
            assert("SYN003"@[5] != "SYN005"@[5]);
        },
        RuleId::Case001 => {
            reveal_strlit("SYN003");
            reveal_strlit("CASE001");
            assert("SYN003"@.len() != "CASE001"@.len());
        },
        RuleId::Punc002 => {
            reveal_strlit("SYN003");
            reveal_strlit("PUNC002");
            assert("SYN003"@.len() != "PUNC002"@.len());
        },
    }
}

proof fn lemma_only_syn004(b: RuleId)
    requires
        RuleId::Syn004.spec_name() == b.spec_name(),
    ensures
        b == RuleId::Syn004,
{
    match b {
        RuleId::Acr001 => {
            reveal_strlit("SYN004");
            reveal_strlit("ACR001");
            assert("SYN004"@[0] != "ACR001"@[0]);
        },
        RuleId::Acr002 => {
            reveal_strlit("SYN004");
            reveal_strlit("ACR002");
            assert("SYN004"@[0] != "ACR002"@[0]);
        },
        RuleId::Term001 => {
            reveal_strlit("SYN004");
            reveal_strlit("TERM001");
            assert("SYN004"@.len() != "TERM001"@.len());
        },
        RuleId::Term002 => {
            reveal_strlit("SYN004");
            reveal_strlit("TERM002");
            assert("SYN004"@.len() != "TERM002"@.len());
        },
        RuleId::Style001 => {
            reveal_strlit("SYN004");
            reveal_strlit("STYLE001");
            assert("SYN004"@.len() != "STYLE001"@.len());
        },
        RuleId::Func001 => {
            reveal_strlit("SYN004");
            reveal_strlit("FUNC001");
            assert("SYN004"@.len() != "FUNC001"@.len());
        },
        RuleId::Func002 => {
            reveal_strlit("SYN004");
            reveal_strlit("FUNC002");
            assert("SYN004"@.len() != "FUNC002"@.len());
        },
        RuleId::Style002 => {
            reveal_strlit("SYN004");
            reveal_strlit("STYLE002");
            assert("SYN004"@.len() != "STYLE002"@.len());
        },
        RuleId::Syn001 => {
            reveal_strlit("SYN004");
            reveal_strlit("SYN001");
            assert("SYN004"@[5] != "SYN001"@[5]);
        },
        RuleId::Syn002 => {
            reveal_strlit("SYN004");
            reveal_strlit("SYN002");
            assert("SYN004"@[5] != "SYN002"@[5]);
        },
        RuleId::Syn003 => {
            reveal_strlit("SYN004");
            reveal_strlit("SYN003");
            assert("SYN004"@[5] != "SYN003"@[5]);
        },
        RuleId::Syn004 => {},
        RuleId::Syn005 => {
            reveal_strlit("SYN004");
            reveal_strlit("SYN005");
            assert("SYN004"@[5] != "SYN005"@[5]);
        },
        RuleId::Case001 => {
            reveal_strlit("SYN004");
            reveal_strlit("CASE001");
            assert("SYN004"@.len() != "CASE001"@.len());
        },
        RuleId::Punc002 => {
            reveal_strlit("SYN004");
            reveal_strlit("PUNC002");
            assert("SYN004"@.len() != "PUNC002"@.len());
        },
    }
}

proof fn lemma_only_syn005(b: RuleId)
    requires
        RuleId::Syn005.spec_name() == b.spec_name(),
    ensures
        b == RuleId::Syn005,
{
    match b {
        RuleId::Acr001 => {
            reveal_strlit("SYN005");
            reveal_strlit("ACR001");
            assert("SYN005"@[0] != "ACR001"@[0]);
        },
        RuleId::Acr002 => {
            reveal_strlit("SYN005");
            reveal_strlit("ACR002");
            assert("SYN005"@[0] != "ACR002"@[0]);
        },
        RuleId::Term001 => {
            reveal_strlit("SYN005");
            reveal_strlit("TERM001");
            assert("SYN005"@.len() != "TERM001"@.len());
        },
        RuleId::Term002 => {
            reveal_strlit("SYN005");
            reveal_strlit("TERM002");
            assert("SYN005"@.len() != "TERM002"@.len());
        },
        RuleId::Style001 => {
            reveal_strlit("SYN005");
            reveal_strlit("STYLE001");
            assert("SYN005"@.len() != "STYLE001"@.len());
        },
        RuleId::Func001 => {
            reveal_strlit("SYN005");
            reveal_strlit("FUNC001");
            assert("SYN005"@.len() != "FUNC001"@.len());
        },
        RuleId::Func002 => {
            reveal_strlit("SYN005");
            reveal_strlit("FUNC002");
            assert("SYN005"@.len() != "FUNC002"@.len());
        },
        RuleId::Style002 => {
            reveal_strlit("SYN005");
            reveal_strlit("STYLE002");
            assert("SYN005"@.len() != "STYLE002"@.len());
        },
        RuleId::Syn001 => {
            reveal_strlit("SYN005");
            reveal_strlit("SYN001");
            assert("SYN005"@[5] != "SYN001"@[5]);
        },
        RuleId::Syn002 => {
            reveal_strlit("SYN005");
            reveal_strlit("SYN002");
            assert("SYN005"@[5] != "SYN002"@[5]);
        },
        RuleId::Syn003 => {
            reveal_strlit("SYN005");
            reveal_strlit("SYN003");
            assert("SYN005"@[5] != "SYN003"@[5]);
        },
        RuleId::Syn004 => {
            reveal_strlit("SYN005");
            reveal_strlit("SYN004");
            assert("SYN005"@[5] != "SYN004"@[5]);
        },
        RuleId::Syn005 => {},
        RuleId::Case001 => {
            reveal_strlit("SYN005");
            reveal_strlit("CASE001");
            assert("SYN005"@.len() != "CASE001"@.len());
        },
        RuleId::Punc002 => {
            reveal_strlit("SYN005");
            reveal_strlit("PUNC002");
            assert("SYN005"@.len() != "PUNC002"@.len());
        },
    }
}

proof fn lemma_only_case001(b: RuleId)
    requires
        RuleId::Case001.spec_name() == b.spec_name(),
    ensures
        b == RuleId::Case001,
{
    match b {
        RuleId::Acr001 => {
            reveal_strlit("CASE001");
            reveal_strlit("ACR001");
            assert("CASE001"@.len() != "ACR001"@.len());
        },
        RuleId::Acr002 => {
            reveal_strlit("CASE001");
            reveal_strlit("ACR002");
            assert("CASE001"@.len() != "ACR002"@.len());
        },
        RuleId::Term001 => {
            reveal_strlit("CASE001");
            reveal_strlit("TERM001");
            assert("CASE001"@[0] != "TERM001"@[0]);
        },
        RuleId::Term002 => {
            reveal_strlit("CASE001");
            reveal_strlit("TERM002");
            assert("CASE001"@[0] != "TERM002"@[0]);
        },
        RuleId::Style001 => {
            reveal_strlit("CASE001");
            reveal_strlit("STYLE001");
            assert("CASE001"@.len() != "STYLE001"@.len());
        },
        RuleId::Func001 => {
            reveal_strlit("CASE001");
            reveal_strlit("FUNC001");
            assert("CASE001"@[0] != "FUNC001"@[0]);
        },
        RuleId::Func002 => {
            reveal_strlit("CASE001");
            reveal_strlit("FUNC002");
            assert("CASE001"@[0] != "FUNC002"@[0]);
        },
        RuleId::Style002 => {
            reveal_strlit("CASE001");
            reveal_strlit("STYLE002");
            assert("CASE001"@.len() != "STYLE002"@.len());
        },
        RuleId::Syn001 => {
            reveal_strlit("CASE001");
            reveal_strlit("SYN001");
            assert("CASE001"@.len() != "SYN001"@.len());
        },
        RuleId::Syn002 => {
            reveal_strlit("CASE001");
            reveal_strlit("SYN002");
            assert("CASE001"@.len() != "SYN002"@.len());
        },
        RuleId::Syn003 => {
            reveal_strlit("CASE001");
            reveal_strlit("SYN003");
            assert("CASE001"@.len() != "SYN003"@.len());
        },
        RuleId::Syn004 => {
            reveal_strlit("CASE001");
            reveal_strlit("SYN004");
            assert("CASE001"@.len() != "SYN004"@.len());
        },
        RuleId::Syn005 => {
            reveal_strlit("CASE001");
            reveal_strlit("SYN005");
            assert("CASE001"@.len() != "SYN005"@.len());
        },
        RuleId::Case001 => {},
        RuleId::Punc002 => {
            reveal_strlit("CASE001");
            reveal_strlit("PUNC002");
            assert("CASE001"@[0] != "PUNC002"@[0]);
        },
    }
}

proof fn lemma_only_punc002(b: RuleId)
    requires
        RuleId::Punc002.spec_name() == b.spec_name(),
    ensures
        b == RuleId::Punc002,
{
    match b {
        RuleId::Acr001 => {
            reveal_strlit("PUNC002");
            reveal_strlit("ACR001");
            assert("PUNC002"@.len() != "ACR001"@.len());
        },
        RuleId::Acr002 => {
            reveal_strlit("PUNC002");
            reveal_strlit("ACR002");
            assert("PUNC002"@.len() != "ACR002"@.len());
        },
        RuleId::Term001 => {
            reveal_strlit("PUNC002");
            reveal_strlit("TERM001");
            assert("PUNC002"@[0] != "TERM001"@[0]);
        },
        RuleId::Term002 => {
            reveal_strlit("PUNC002");
            reveal_strlit("TERM002");
            assert("PUNC002"@[0] != "TERM002"@[0]);
        },
        RuleId::Style001 => {
            reveal_strlit("PUNC002");
            reveal_strlit("STYLE001");
            assert("PUNC002"@.len() != "STYLE001"@.len());
        },
        RuleId::Func001 => {
            reveal_strlit("PUNC002");
            reveal_strlit("FUNC001");
            assert("PUNC002"@[0] != "FUNC001"@[0]);
        },
        RuleId::Func002 => {
            reveal_strlit("PUNC002");
            reveal_strlit("FUNC002");
            assert("PUNC002"@[0] != "FUNC002"@[0]);
        },
        RuleId::Style002 => {
            reveal_strlit("PUNC002");
            reveal_strlit("STYLE002");
            assert("PUNC002"@.len() != "STYLE002"@.len());
        },
        RuleId::Syn001 => {
            reveal_strlit("PUNC002");
            reveal_strlit("SYN001");
            assert("PUNC002"@.len() != "SYN001"@.len());
        },
        RuleId::Syn002 => {
            reveal_strlit("PUNC002");
            reveal_strlit("SYN002");
            assert("PUNC002"@.len() != "SYN002"@.len());
        },
        RuleId::Syn003 => {
            reveal_strlit("PUNC002");
            reveal_strlit("SYN003");
            assert("PUNC002"@.len() != "SYN003"@.len());
        },
        RuleId::Syn004 => {
            reveal_strlit("PUNC002");
            reveal_strlit("SYN004");
            assert("PUNC002"@.len() != "SYN004"@.len());
        },
        RuleId::Syn005 => {
            reveal_strlit("PUNC002");
            reveal_strlit("SYN005");
            assert("PUNC002"@.len() != "SYN005"@.len());
        },
        RuleId::Case001 => {
            reveal_strlit("PUNC002");
            reveal_strlit("CASE001");
            assert("PUNC002"@[0] != "CASE001"@[0]);
        },
        RuleId::Punc002 => {},
    }
}

/// Distinct rules have distinct names.
pub proof fn lemma_names_distinct(a: RuleId, b: RuleId)
    requires
        a.spec_name() == b.spec_name(),
    ensures
        a == b,
{
    match a {
        RuleId::Acr001 => lemma_only_acr001(b),
        RuleId::Acr002 => lemma_only_acr002(b),
        RuleId::Term001 => lemma_only_term001(b),
        RuleId::Term002 => lemma_only_term002(b),
        RuleId::Style001 => lemma_only_style001(b),
        RuleId::Func001 => lemma_only_func001(b),
        RuleId::Func002 => lemma_only_func002(b),
        RuleId::Style002 => lemma_only_style002(b),
        RuleId::Syn001 => lemma_only_syn001(b),
        RuleId::Syn002 => lemma_only_syn002(b),
        RuleId::Syn003 => lemma_only_syn003(b),
        RuleId::Syn004 => lemma_only_syn004(b),
        RuleId::Syn005 => lemma_only_syn005(b),
        RuleId::Case001 => lemma_only_case001(b),
        RuleId::Punc002 => lemma_only_punc002(b),
    }
}

/// Parsing a rule's name gives the rule back.
pub proof fn lemma_parse_name(id: RuleId, other: RuleId)
    requires
        other.spec_name() == id.spec_name(),
    ensures
        other == id,
{
    lemma_names_distinct(other, id);
}

/// A name that is not a rule's.
#[derive(Debug, Clone, PartialEq, Eq)]
pub struct ParseRuleIdError {
    value: String,
}

impl ParseRuleIdError {
    pub closed spec fn spec_value(&self) -> Seq<char> {
        self.value@
    }

    /// The error message: unknown rule id `VALUE`.
    pub fn message(&self) -> (m: String)
        ensures
            m@ == "unknown rule id `"@ + self.spec_value() + "`"@,
    {
        let mut m = "unknown rule id `".to_owned();
        m.append(self.value.as_str());
        m.append("`");
        m
    }
}

impl std::str::FromStr for RuleId {
    type Err = ParseRuleIdError;

    fn from_str(value: &str) -> (r: Result<RuleId, ParseRuleIdError>)
        ensures
            match r {
                Ok(id) => id.spec_name() == value@,
                Err(e) => e.spec_value() == value@ && forall|id: RuleId| #[trigger] id.spec_name() != value@,
            },
    {
        RuleId::parse(value)
    }
}

} // verus!
