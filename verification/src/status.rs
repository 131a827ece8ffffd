//! The stages that a block goes through on its way to a proof.

use vstd::prelude::*;

verus! {

/// How far a block has come.
#[derive(Debug, Clone, Copy, PartialEq, Eq, Structural)]
pub enum ProvableBlockStatus {
    Queued,
    Executed,
    Proved,
    Failed,
}

impl ProvableBlockStatus {
    /// The word that is stored for the status.
    pub open spec fn word(self) -> Seq<char> {
        match self {
            ProvableBlockStatus::Queued => "queued"@,
            ProvableBlockStatus::Executed => "executed"@,
            ProvableBlockStatus::Proved => "proved"@,
            ProvableBlockStatus::Failed => "failed"@,
        }
    }

    /// Writes the status as it is stored.
    pub fn to_string(&self) -> (r: String)
        ensures
            r@ == self.word(),
            self is Queued ==> r@ == "queued"@,
            self is Executed ==> r@ == "executed"@,
            self is Proved ==> r@ == "proved"@,
            self is Failed ==> r@ == "failed"@,
    {
        match self {
            ProvableBlockStatus::Queued => "queued".to_owned(),
            ProvableBlockStatus::Executed => "executed".to_owned(),
            ProvableBlockStatus::Proved => "proved".to_owned(),
            ProvableBlockStatus::Failed => "failed".to_owned(),
        }
    }
}

/// A stored word tells which status it was written for.
pub proof fn law_status_words_differ(a: ProvableBlockStatus, b: ProvableBlockStatus)
    ensures
        a.word() == b.word() <==> a == b,
{
    reveal_strlit("queued");
    reveal_strlit("executed");
    reveal_strlit("proved");
    reveal_strlit("failed");
    assert("queued"@[0] == 'q');
    assert("executed"@[0] == 'e');
    assert("proved"@[0] == 'p');
    assert("failed"@[0] == 'f');
}

/// Each status is stored under its own name, in lower case.
pub proof fn law_a_status_is_stored_under_its_name(status: ProvableBlockStatus)
    ensures
        status is Queued <==> status.word() == "queued"@,
        status is Executed <==> status.word() == "executed"@,
        status is Proved <==> status.word() == "proved"@,
        status is Failed <==> status.word() == "failed"@,
{
    law_status_words_differ(status, ProvableBlockStatus::Queued);
    law_status_words_differ(status, ProvableBlockStatus::Executed);
    law_status_words_differ(status, ProvableBlockStatus::Proved);
    law_status_words_differ(status, ProvableBlockStatus::Failed);
}

} // verus!
