use vstd::prelude::*;

use crate::types::AccountId;

verus! {

/// An amount of the chain's currency.
pub type Balance = u128;

/// The value that `Victim::call_external` transfers with its outbound call.
pub const CALL_VALUE: Balance = 10;

/// The gas limit of that call.
pub const CALL_GAS_LIMIT: u64 = 50000;

/// Why an operation of the harness programs failed.
#[derive(Clone, Copy, Debug, PartialEq, Eq, Structural)]
pub enum HarnessError {
    /// A balance would pass the largest representable amount.
    BalanceOverflow,
    /// The outbound call failed; everything it did was rolled back.
    CallFailed,
}

/// How the callee's execution of an outbound call ended.
#[derive(Clone, Copy, Debug, PartialEq, Eq, Structural)]
pub enum CallOutcome {
    Succeeded,
    Failed,
}

/// An outbound call as the caller issues it: a value, a gas budget and an
/// input of just a selector that matches no message, so that the callee's
/// fallback runs.
#[derive(Clone, Copy, Debug)]
pub struct OutboundCall {
    pub callee: AccountId,
    pub value: Balance,
    pub gas_limit: u64,
    pub selector: [u8; 4],
}

/// The program that calls out in the middle of an operation.
#[derive(Clone, Copy, Debug)]
pub struct Victim {
    pub owner: AccountId,
    pub balance: Balance,
}

/// A passive receiver whose fallback records that it ran.
#[derive(Clone, Copy, Debug)]
pub struct Attacker {
    pub owner: AccountId,
    pub balance: Balance,
    pub flip: bool,
}

/// An owner-gated wallet whose fallback flips a flag on every call.
#[derive(Clone, Copy, Debug)]
pub struct AttackerWallet {
    pub owner: AccountId,
    pub balance: Balance,
    pub flip: bool,
}

impl Victim {
    /// A victim owned by `caller`, holding `balance`.
    pub fn new(caller: AccountId, balance: Balance) -> (r: Victim)
        ensures
            r.owner == caller,
            r.balance == balance,
    {
        Victim { owner: caller, balance }
    }

    pub fn get_owner(&self) -> (r: AccountId)
        ensures
            r == self.owner,
    {
        self.owner
    }

    pub fn get_balance(&self) -> (r: Balance)
        ensures
            r == self.balance,
    {
        self.balance
    }

    /// The outbound call to `callee`: `CALL_VALUE` with `CALL_GAS_LIMIT` and
    /// the selector `[0, 0, 0, 0]`. It is issued whatever the balance; a
    /// value that the balance cannot cover makes the call fail.
    pub fn call_external(&self, callee: AccountId) -> (r: OutboundCall)
        ensures
            r.callee == callee,
            r.value == CALL_VALUE,
            r.gas_limit == CALL_GAS_LIMIT,
            r.selector@ == seq![0u8, 0u8, 0u8, 0u8],
    {
        let call = OutboundCall {
            callee,
            value: CALL_VALUE,
            gas_limit: CALL_GAS_LIMIT,
            selector: [0u8, 0u8, 0u8, 0u8],
        };
        assert(call.selector@ =~= seq![0u8, 0u8, 0u8, 0u8]);
        call
    }

    /// Settles an outbound call once the callee has finished. On success the
    /// transferred value leaves the balance; when the callee failed, or the
    /// balance cannot cover the value (the transfer is then refused),
    /// nothing changes and the operation fails as a whole.
    pub fn finish_call(&mut self, call: &OutboundCall, outcome: CallOutcome) -> (r: Result<(), HarnessError>)
        ensures
            r is Ok <==> outcome == CallOutcome::Succeeded && call.value <= old(self).balance,
            r is Err ==> r == Err::<(), HarnessError>(HarnessError::CallFailed) && *final(self)
                == *old(self),
            r is Ok ==> final(self).balance == old(self).balance - call.value && final(self).owner
                == old(self).owner,
    {
        if call.value > self.balance {
            return Err(HarnessError::CallFailed);
        }
        match outcome {
            CallOutcome::Succeeded => {
                self.balance = self.balance - call.value;
                Ok(())
            },
            CallOutcome::Failed => Err(HarnessError::CallFailed),
        }
    }
}

impl Attacker {
    /// An attacker owned by `caller`, holding `balance`.
    pub fn new(caller: AccountId, balance: Balance) -> (r: Attacker)
        ensures
            r.owner == caller,
            r.balance == balance,
            !r.flip,
    {
        Attacker { owner: caller, balance, flip: false }
    }

    pub fn get_owner(&self) -> (r: AccountId)
        ensures
            r == self.owner,
    {
        self.owner
    }

    pub fn get_balance(&self) -> (r: Balance)
        ensures
            r == self.balance,
    {
        self.balance
    }

    pub fn get_flip(&self) -> (r: bool)
        ensures
            r == self.flip,
    {
        self.flip
    }

    /// Receives a call that matches no message, with `value` attached, and
    /// records that it ran.
    pub fn fallback(&mut self, value: Balance) -> (r: Result<(), HarnessError>)
        ensures
            r is Ok <==> old(self).balance + value <= Balance::MAX,
            r is Err ==> r == Err::<(), HarnessError>(HarnessError::BalanceOverflow) && *final(self)
                == *old(self),
            r is Ok ==> final(self).balance == old(self).balance + value && final(self).flip
                && final(self).owner == old(self).owner,
    {
        match self.balance.checked_add(value) {
            Some(b) => {
                self.balance = b;
                self.flip = true;
                Ok(())
            },
            None => Err(HarnessError::BalanceOverflow),
        }
    }
}

impl AttackerWallet {
    /// A wallet owned by `caller`, holding `balance`.
    pub fn new(caller: AccountId, balance: Balance) -> (r: AttackerWallet)
        ensures
            r.owner == caller,
            r.balance == balance,
            !r.flip,
    {
        AttackerWallet { owner: caller, balance, flip: false }
    }

    pub fn get_owner(&self) -> (r: AccountId)
        ensures
            r == self.owner,
    {
        self.owner
    }

    pub fn get_balance(&self) -> (r: Balance)
        ensures
            r == self.balance,
    {
        self.balance
    }

    pub fn get_flip(&self) -> (r: bool)
        ensures
            r == self.flip,
    {
        self.flip
    }

    /// Takes `amount` out of the wallet for a transfer. Only the owner may
    /// call it, and only within the balance; the recipient is credited by
    /// whoever keeps its balance.
    pub fn transfer_to(&mut self, caller: AccountId, amount: Balance)
        requires
            caller.bytes@ == old(self).owner.bytes@,
            amount <= old(self).balance,
        ensures
            final(self).balance == old(self).balance - amount,
            final(self).flip == old(self).flip,
            final(self).owner == old(self).owner,
    {
        self.balance = self.balance - amount;
    }

    /// Receives a call that matches no message, with `value` attached, and
    /// flips its flag.
    pub fn fallback(&mut self, value: Balance) -> (r: Result<(), HarnessError>)
        ensures
            r is Ok <==> old(self).balance + value <= Balance::MAX,
            r is Err ==> r == Err::<(), HarnessError>(HarnessError::BalanceOverflow) && *final(self)
                == *old(self),
            r is Ok ==> final(self).balance == old(self).balance + value && final(self).flip
                == !old(self).flip && final(self).owner == old(self).owner,
    {
        match self.balance.checked_add(value) {
            Some(b) => {
                self.balance = b;
                self.flip = !self.flip;
                Ok(())
            },
            None => Err(HarnessError::BalanceOverflow),
        }
    }
}

/// Runs `victim.call_external` against `wallet`, deployed at
/// `wallet_address`, as one transaction: the
/// victim issues the call, the wallet's fallback runs unless the host
/// reports that the callee's execution failed (`host` is `Failed`, as when
/// the gas runs out) or the victim cannot cover the value, and the victim
/// settles. Either the value moves from
/// the victim to the wallet and the wallet's flag flips, or nothing changes
/// and the call fails.
pub fn call_external_into_wallet(
    victim: &mut Victim,
    wallet: &mut AttackerWallet,
    wallet_address: AccountId,
    host: CallOutcome,
) -> (r: Result<(), HarnessError>)
    ensures
        r is Ok <==> {
            &&& host == CallOutcome::Succeeded
            &&& old(victim).balance >= CALL_VALUE
            &&& old(wallet).balance + CALL_VALUE <= Balance::MAX
        },
        r is Err ==> *final(victim) == *old(victim) && *final(wallet) == *old(wallet),
        r is Ok ==> {
            &&& final(victim).balance == old(victim).balance - CALL_VALUE
            &&& final(wallet).balance == old(wallet).balance + CALL_VALUE
            &&& final(wallet).flip == !old(wallet).flip
            &&& final(victim).owner == old(victim).owner
            &&& final(wallet).owner == old(wallet).owner
        },
{
    let call = victim.call_external(wallet_address);
    let saved = *wallet;
    let outcome = if call.value > victim.balance {
        CallOutcome::Failed
    } else {
        match host {
            CallOutcome::Failed => CallOutcome::Failed,
            CallOutcome::Succeeded => match wallet.fallback(call.value) {
                Ok(()) => CallOutcome::Succeeded,
                Err(_) => CallOutcome::Failed,
            },
        }
    };
    let r = victim.finish_call(&call, outcome);
    if r.is_err() {
        *wallet = saved;
    }
    r
}

} // verus!
