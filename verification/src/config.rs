//! Configuration values that the verified core reads: the runtime
//! environment and the participant entries of the crypto block.
//!
//! Loading the layered configuration files and environment variables is I/O
//! and lives outside the library; what arrives here are plain values.

use vstd::prelude::*;

verus! {

/// The possible runtime environments of the application.
#[derive(Debug)]
pub enum Environment {
    Local,
    Production,
}

impl Environment {
    pub fn as_str(&self) -> (r: &'static str)
        ensures
            self is Local ==> r@ == "local"@,
            self is Production ==> r@ == "production"@,
    {
        match self {
            Environment::Local => "local",
            Environment::Production => "production",
        }
    }

    /// Parses an environment name. The caller hands the name already
    /// lower-cased; anything but `local` or `production` comes back as the
    /// error value.
    pub fn from_name(s: String) -> (r: Result<Environment, String>)
        ensures
            s@ == "local"@ ==> (r matches Ok(e) && e is Local),
            s@ == "production"@ ==> (r matches Ok(e) && e is Production),
            !(s@ == "local"@ || s@ == "production"@) ==> (r matches Err(other) && other@ == s@),
    {
        proof {
            broadcast use vstd::string::group_string_axioms;

            reveal_strlit("local");
            reveal_strlit("production");
            assert("local"@.len() == 5);
            assert("production"@.len() == 10);
        }
        if s == "local".to_owned() {
            Ok(Environment::Local)
        } else if s == "production".to_owned() {
            Ok(Environment::Production)
        } else {
            Err(s)
        }
    }
}

/// One participant entry of the crypto configuration block.
pub struct ActiveParticipantConfig {
    pub host: String,
    pub port: u16,
    pub index: usize,
}

/// A peer known to this node: its index in the key set and the address it
/// is reached at.
pub struct ParticipantId {
    pub index: usize,
    pub url: String,
}

/// The participant entries whose index differs from `whoami`, in order.
pub open spec fn peers_filter(participants: Seq<ParticipantId>, whoami: usize) -> Seq<
    ParticipantId,
> {
    participants.filter(|p: ParticipantId| p.index != whoami)
}

/// Keeps every peer but this node itself, in configuration order. This is
/// the participant filtering performed when the crypto state is built.
pub fn peers_without_self(participants: Vec<ParticipantId>, whoami: usize) -> (r: Vec<
    ParticipantId,
>)
    ensures
        r@ == peers_filter(participants@, whoami),
{
    let ghost all = participants@;
    let mut rest = participants;
    let mut r: Vec<ParticipantId> = Vec::new();
    let n = rest.len();
    let mut k: usize = 0;
    proof {
        assert(peers_filter(all.take(0), whoami) =~= Seq::<ParticipantId>::empty());
    }
    while k < n
        invariant
            k <= n,
            n == all.len(),
            rest@ =~= all.skip(k as int),
            r@ == peers_filter(all.take(k as int), whoami),
        decreases n - k,
    {
        let p = rest.remove(0);
        proof {
            assert(p == all[k as int]);
            assert(rest@ =~= all.skip(k as int + 1));
            let t = all.take(k as int);
            assert(all.take(k as int + 1) =~= t.push(p));
            assert(t.push(p).drop_last() =~= t);
            assert(t.push(p).last() == p);
            reveal_with_fuel(Seq::filter, 2);
            assert(peers_filter(t.push(p), whoami) == if p.index != whoami {
                peers_filter(t, whoami).push(p)
            } else {
                peers_filter(t, whoami)
            });
        }
        if p.index != whoami {
            r.push(p);
        }
        k = k + 1;
    }
    proof {
        assert(all.take(n as int) =~= all);
    }
    r
}

} // verus!
