//! Building a counter-example from a failing call against known contracts,
//! and its text.

use vstd::prelude::*;
use vstd::string::*;
use crate::dictionary::bytes_eq;
use crate::outcome::{digit_char, FuzzError};
use crate::session::BaseCounterExample;

verus! {

/// A deployed contract: its address, its name and the signatures of its
/// functions.
pub struct ContractAbi {
    pub address: [u8; 20],
    pub name: String,
    pub functions: Vec<String>,
}

/// The selector of a function signature: the first four bytes of the
/// Keccak-256 digest of its text.
pub uninterp spec fn selector_of(signature: Seq<char>) -> Seq<u8>;

/// Relies on `ethers::utils::id`: the first four bytes of the Keccak-256
/// digest of the signature's bytes, a function of the text alone.
#[verifier::external_body]
fn selector(signature: &str) -> (r: [u8; 4])
    ensures
        r@ == selector_of(signature@),
{
    ethers::utils::id(signature)
}

/// The index of the first contract at `addr`.
pub open spec fn contract_at(contracts: Seq<ContractAbi>, addr: Seq<u8>, i: int) -> bool {
    &&& 0 <= i < contracts.len()
    &&& contracts[i].address@ == addr
    &&& forall|j: int| 0 <= j < i ==> (#[trigger] contracts[j]).address@ != addr
}

/// The index of the first function whose selector begins `calldata`.
pub open spec fn function_for(functions: Seq<String>, calldata: Seq<u8>, k: int) -> bool {
    &&& 0 <= k < functions.len()
    &&& selector_of(functions[k]@) == calldata.subrange(0, 4)
    &&& forall|j: int| 0 <= j < k ==> selector_of((#[trigger] functions[j])@) != calldata.subrange(0, 4)
}

/// Finds the contract at `addr` and, in it, the function that `calldata`
/// calls: `UnknownContract` when no contract is at `addr`, `UnknownFunction`
/// when none of its functions has the selector that begins `calldata`.
pub fn find_function(contracts: &Vec<ContractAbi>, addr: &[u8; 20], calldata: &Vec<u8>) -> (r:
    Result<(usize, usize), FuzzError>)
    requires
        calldata@.len() >= 4,
    ensures
        match r {
            Ok((i, k)) => contract_at(contracts@, addr@, i as int) && function_for(
                contracts@[i as int].functions@,
                calldata@,
                k as int,
            ),
            Err(FuzzError::UnknownContract) => forall|j: int|
                0 <= j < contracts@.len() ==> (#[trigger] contracts@[j]).address@ != addr@,
            Err(FuzzError::UnknownFunction) => exists|i: int|
                contract_at(contracts@, addr@, i) && forall|j: int|
                    0 <= j < contracts@[i].functions@.len() ==> selector_of(
                        (#[trigger] contracts@[i].functions@[j])@,
                    ) != calldata@.subrange(0, 4),
            Err(_) => false,
        },
{
    let mut i: usize = 0;
    while i < contracts.len()
        invariant
            calldata@.len() >= 4,
            i <= contracts@.len(),
            forall|j: int| 0 <= j < i ==> (#[trigger] contracts@[j]).address@ != addr@,
        decreases contracts@.len() - i,
    {
        if bytes_eq(contracts[i].address.as_slice(), addr.as_slice()) {
            assert(contract_at(contracts@, addr@, i as int));
            let functions = &contracts[i].functions;
            let head: [u8; 4] = [calldata[0], calldata[1], calldata[2], calldata[3]];
            assert(head@ =~= calldata@.subrange(0, 4));
            let mut k: usize = 0;
            while k < functions.len()
                invariant
                    calldata@.len() >= 4,
                    i < contracts@.len(),
                    contract_at(contracts@, addr@, i as int),
                    functions@ == contracts@[i as int].functions@,
                    k <= functions@.len(),
                    head@ == calldata@.subrange(0, 4),
                    forall|j: int| 0 <= j < k ==> selector_of((#[trigger] functions@[j])@) != calldata@.subrange(0, 4),
                decreases functions@.len() - k,
            {
                let sel = selector(functions[k].as_str());
                if bytes_eq(sel.as_slice(), head.as_slice()) {
                    return Ok((i, k));
                }
                k = k + 1;
            }
            assert(contract_at(contracts@, addr@, i as int));
            return Err(FuzzError::UnknownFunction);
        }
        i = i + 1;
    }
    Err(FuzzError::UnknownContract)
}

/// No contract at `addr` holds a function with the selector that begins
/// `calldata`, though one contract is at `addr`.
pub open spec fn no_function(contracts: Seq<ContractAbi>, addr: Seq<u8>, calldata: Seq<u8>) -> bool {
    exists|i: int|
        contract_at(contracts, addr, i) && forall|j: int|
            0 <= j < contracts[i].functions@.len() ==> selector_of(
                (#[trigger] contracts[i].functions@[j])@,
            ) != calldata.subrange(0, 4)
}

/// Lower-case hexadecimal digit of `d < 16`.
pub open spec fn hex_digit(d: nat) -> char {
    if d < 10 {
        digit_char(d)
    } else if d == 10 {
        'a'
    } else if d == 11 {
        'b'
    } else if d == 12 {
        'c'
    } else if d == 13 {
        'd'
    } else if d == 14 {
        'e'
    } else {
        'f'
    }
}

/// Two lower-case hexadecimal digits for each byte, high digit first.
pub open spec fn hex_of(b: Seq<u8>) -> Seq<char>
    decreases b.len(),
{
    if b.len() == 0 {
        Seq::empty()
    } else {
        hex_of(b.drop_last()) + seq![hex_digit(b.last() as nat / 16), hex_digit(b.last() as nat % 16)]
    }
}

/// Relies on `hex::encode`: two lower-case hexadecimal digits for each
/// byte, high digit first.
#[verifier::external_body]
fn hex_encode(b: &[u8]) -> (r: String)
    ensures
        r@ == hex_of(b@),
{
    hex::encode(b)
}

/// The texts joined by ", ".
pub open spec fn join_args(args: Seq<Seq<char>>) -> Seq<char>
    decreases args.len(),
{
    if args.len() == 0 {
        Seq::empty()
    } else if args.len() == 1 {
        args[0]
    } else {
        join_args(args.drop_last()) + ", "@ + args.last()
    }
}

/// An address as `0x` followed by its hexadecimal digits.
pub open spec fn address_text(a: Seq<u8>) -> Seq<char> {
    "0x"@ + hex_of(a)
}

/// The text of a counter-example: `sender=<sender> addr=` where the sender
/// is known, `[<name>]` where the contract is, `<addr> ` where the address
/// is, `calldata=<signature>` or else `calldata=0x<hex>`, and then
/// `, args=[<a>, <b>, ...]`.
pub open spec fn display_of<T>(c: BaseCounterExample<T>) -> Seq<char> {
    let sender = match c.sender {
        Some(s) => "sender="@ + address_text(s@) + " addr="@,
        None => Seq::empty(),
    };
    let name = match c.contract_name {
        Some(n) => "["@ + n@ + "]"@,
        None => Seq::empty(),
    };
    let addr = match c.addr {
        Some(a) => address_text(a@) + " "@,
        None => Seq::empty(),
    };
    let call = match c.signature {
        Some(sig) => "calldata="@ + sig@,
        None => "calldata=0x"@ + hex_of(c.calldata@),
    };
    sender + name + addr + call + ", args=["@ + join_args(c.args@.map_values(|a: String| a@))
        + "]"@
}

impl<T> BaseCounterExample<T> {
    /// Builds the counter-example of a call of `bytes` from `sender` to
    /// `addr`. `args` are the arguments decoded against the function that
    /// `find_function` picks, `None` when they did not decode. Fails with
    /// `UnknownContract`, `UnknownFunction` or `FailedDecodeInput`, checked in
    /// that order.
    pub fn create(
        sender: [u8; 20],
        addr: [u8; 20],
        bytes: &Vec<u8>,
        contracts: &Vec<ContractAbi>,
        traces: Option<T>,
        args: Option<Vec<String>>,
    ) -> (r: Result<BaseCounterExample<T>, FuzzError>)
        requires
            bytes@.len() >= 4,
        ensures
            (forall|j: int| 0 <= j < contracts@.len() ==> (#[trigger] contracts@[j]).address@ != addr@)
                <==> r == Err::<BaseCounterExample<T>, FuzzError>(FuzzError::UnknownContract),
            no_function(contracts@, addr@, bytes@) <==> r == Err::<BaseCounterExample<T>, FuzzError>(
                FuzzError::UnknownFunction,
            ),
            r == Err::<BaseCounterExample<T>, FuzzError>(FuzzError::FailedDecodeInput) <==> (
            args.is_none() && exists|i: int, k: int|
                contract_at(contracts@, addr@, i) && function_for(
                    contracts@[i].functions@,
                    bytes@,
                    k,
                )),
            (args.is_some() && exists|i: int, k: int|
                contract_at(contracts@, addr@, i) && function_for(contracts@[i].functions@, bytes@, k))
                ==> r is Ok,
            r matches Ok(b) ==> {
                &&& args.is_some()
                &&& b.args@ == args.unwrap()@
                &&& b.sender == Some(sender)
                &&& b.addr == Some(addr)
                &&& b.calldata@ == bytes@
                &&& b.traces == traces
                &&& exists|i: int, k: int|
                    contract_at(contracts@, addr@, i) && function_for(
                        contracts@[i].functions@,
                        bytes@,
                        k,
                    ) && b.contract_name == Some(contracts@[i].name) && b.signature == Some(
                        contracts@[i].functions@[k],
                    )
            },
    {
        match find_function(contracts, &addr, bytes) {
            Ok((i, k)) => {
                proof {
                    assert(!no_function(contracts@, addr@, bytes@)) by {
                        if no_function(contracts@, addr@, bytes@) {
                            let i2 = choose|i2: int| contract_at(contracts@, addr@, i2) && forall|j: int|
                                0 <= j < contracts@[i2].functions@.len() ==> selector_of(
                                    (#[trigger] contracts@[i2].functions@[j])@,
                                ) != bytes@.subrange(0, 4);
                            assert(i2 == i as int);
                        }
                    }
                }
                match args {
                    Some(args) => Ok(
                        BaseCounterExample {
                            sender: Some(sender),
                            addr: Some(addr),
                            calldata: bytes.clone(),
                            signature: Some(contracts[i].functions[k].clone()),
                            contract_name: Some(contracts[i].name.clone()),
                            traces,
                            args,
                        },
                    ),
                    None => Err(FuzzError::FailedDecodeInput),
                }
            },
            Err(e) => {
                proof {
                    if e == FuzzError::UnknownFunction {
                        let i = choose|i: int| contract_at(contracts@, addr@, i) && forall|j: int|
                            0 <= j < contracts@[i].functions@.len() ==> selector_of(
                                (#[trigger] contracts@[i].functions@[j])@,
                            ) != bytes@.subrange(0, 4);
                        assert forall|i2: int, k: int| !(contract_at(contracts@, addr@, i2) && function_for(
                            contracts@[i2].functions@, bytes@, k)) by {
                            if contract_at(contracts@, addr@, i2) {
                                assert(i2 == i);
                            }
                        }
                    }
                    if e == FuzzError::UnknownContract {
                        assert(!no_function(contracts@, addr@, bytes@));
                    }
                }
                Err(e)
            },
        }
    }

    /// The text of the counter-example (see `display_of`).
    pub fn to_display_string(&self) -> (r: String)
        ensures
            r@ == display_of(*self),
    {
        let ghost c = *self;
        let ghost sender_t = match c.sender {
            Some(x) => "sender="@ + address_text(x@) + " addr="@,
            None => Seq::empty(),
        };
        let ghost name_t = match c.contract_name {
            Some(n) => "["@ + n@ + "]"@,
            None => Seq::empty(),
        };
        let ghost addr_t = match c.addr {
            Some(a) => address_text(a@) + " "@,
            None => Seq::empty(),
        };
        let ghost call_t = match c.signature {
            Some(sig) => "calldata="@ + sig@,
            None => "calldata=0x"@ + hex_of(c.calldata@),
        };
        let mut s = String::new();
        match &self.sender {
            Some(a) => {
                s.append("sender=0x");
                let h = hex_encode(a.as_slice());
                s.append(h.as_str());
                s.append(" addr=");
                proof {
                    reveal_strlit("sender=0x");
                    reveal_strlit("sender=");
                    reveal_strlit("0x");
                    assert(s@ =~= sender_t);
                }
            },
            None => {
                assert(s@ =~= sender_t);
            },
        }
        match &self.contract_name {
            Some(n) => {
                s.append("[");
                s.append(n.as_str());
                s.append("]");
                assert(s@ =~= sender_t + name_t);
            },
            None => {
                assert(s@ =~= sender_t + name_t);
            },
        }
        match &self.addr {
            Some(a) => {
                s.append("0x");
                let h = hex_encode(a.as_slice());
                s.append(h.as_str());
                s.append(" ");
                assert(s@ =~= sender_t + name_t + addr_t);
            },
            None => {
                assert(s@ =~= sender_t + name_t + addr_t);
            },
        }
        match &self.signature {
            Some(sig) => {
                s.append("calldata=");
                s.append(sig.as_str());
                assert(s@ =~= sender_t + name_t + addr_t + call_t);
            },
            None => {
                s.append("calldata=0x");
                let h = hex_encode(self.calldata.as_slice());
                s.append(h.as_str());
                assert(s@ =~= sender_t + name_t + addr_t + call_t);
            },
        }
        s.append(", args=[");
        let ghost texts = self.args@.map_values(|a: String| a@);
        let mut i: usize = 0;
        let ghost prefix = s@;
        while i < self.args.len()
            invariant
                i <= self.args@.len(),
                texts == self.args@.map_values(|a: String| a@),
                s@ == prefix + join_args(texts.subrange(0, i as int)),
            decreases self.args@.len() - i,
        {
            if i > 0 {
                s.append(", ");
            }
            s.append(self.args[i].as_str());
            proof {
                let t = texts.subrange(0, i as int + 1);
                assert(t.drop_last() =~= texts.subrange(0, i as int));
                if i == 0 {
                    assert(t.len() == 1);
                }
            }
            i = i + 1;
        }
        s.append("]");
        proof {
            assert(texts.subrange(0, i as int) =~= texts);
            assert(s@ =~= display_of(c));
        }
        s
    }
}

} // verus!
