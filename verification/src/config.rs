//! Run configuration: choosing the credential from flag and
//! environment, and refusing an empty one before any network work.

use vstd::prelude::*;

verus! {

/// The values a run starts from: the bearer credential and the
/// directory the archives are written to.
#[derive(Debug, Clone)]
pub struct ParsedArgs {
    pub token: String,
    pub output: String,
}

/// The credential a run uses: the environment's value when one is set,
/// otherwise the flag's value.
pub open spec fn chosen_token(flag: Seq<char>, env: Option<Seq<char>>) -> Seq<char> {
    match env {
        Option::Some(e) => e,
        Option::None => flag,
    }
}

/// Resolves the credential: the environment takes precedence over the
/// flag, and an empty result is refused.
pub fn resolve_credential(flag_token: String, env_token: Option<String>) -> (r: Option<String>)
    ensures
        ({
            let c = chosen_token(
                flag_token@,
                match env_token {
                    Option::Some(e) => Option::Some(e@),
                    Option::None => Option::<Seq<char>>::None,
                },
            );
            &&& (r is Some <==> c.len() > 0)
            &&& (r is Some ==> r->0@ == c)
        }),
{
    let token = match env_token {
        Option::Some(e) => e,
        Option::None => flag_token,
    };
    if token.as_str().is_empty() {
        Option::None
    } else {
        Option::Some(token)
    }
}

/// Builds the run configuration, refusing a run without a credential.
pub fn parsed_args(flag_token: String, env_token: Option<String>, output: String) -> (r: Option<
    ParsedArgs,
>)
    ensures
        ({
            let c = chosen_token(
                flag_token@,
                match env_token {
                    Option::Some(e) => Option::Some(e@),
                    Option::None => Option::<Seq<char>>::None,
                },
            );
            &&& (r is Some <==> c.len() > 0)
            &&& (r is Some ==> r->0.token@ == c && r->0.output@ == output@)
        }),
{
    match resolve_credential(flag_token, env_token) {
        Option::Some(token) => Option::Some(ParsedArgs { token, output }),
        Option::None => Option::None,
    }
}

/// What the run does when one download fails: halt the whole run, or
/// record the failure and go on with the remaining repositories.
pub enum DownloadPolicy {
    Halt,
    Skip,
}

/// The run's download ledger: how many archives were written and how
/// many downloads failed.
pub struct DownloadTally {
    pub completed: usize,
    pub failed: usize,
}

impl DownloadTally {
    /// A run that has downloaded nothing yet.
    pub fn new() -> (t: DownloadTally)
        ensures
            t.completed == 0,
            t.failed == 0,
    {
        DownloadTally { completed: 0, failed: 0 }
    }

    /// Records one download's outcome and says whether the run halts:
    /// it does exactly on a failure under the halting policy.
    pub fn record(&mut self, succeeded: bool, policy: &DownloadPolicy) -> (halt: bool)
        requires
            old(self).completed < usize::MAX,
            old(self).failed < usize::MAX,
        ensures
            final(self).completed == old(self).completed + (if succeeded { 1int } else { 0int }),
            final(self).failed == old(self).failed + (if succeeded { 0int } else { 1int }),
            halt == (!succeeded && policy is Halt),
    {
        if succeeded {
            self.completed = self.completed + 1;
            false
        } else {
            self.failed = self.failed + 1;
            match policy {
                DownloadPolicy::Halt => true,
                DownloadPolicy::Skip => false,
            }
        }
    }
}

} // verus!
