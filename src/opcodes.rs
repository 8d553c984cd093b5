//! The table of opcode names: every byte value under the name that the
//! script library displays it with.
use bitcoin::blockdata::opcodes::All;
use vstd::prelude::*;

verus! {

/// The number of opcodes: one for each byte value.
pub const OPCODE_COUNT: usize = 256;

/// The canonical name of the opcode with byte value `code`, as the script
/// library displays it (`OP_CHECKSIG`, `OP_PUSHBYTES_3`).
pub uninterp spec fn opcode_name_of(code: u8) -> Seq<char>;

/// Relies on the `Debug` impl of `bitcoin::blockdata::opcodes::All` and on
/// `All::from(u8)`: the name is a function of the byte value alone.
#[verifier::external_body]
fn opcode_name(code: u8) -> (r: String)
    ensures
        r@ == opcode_name_of(code),
{
    format!("{:?}", All::from(code))
}

/// A script opcode, by its byte value.
#[derive(Clone, Copy, Debug, PartialEq, Eq)]
pub struct Opcode {
    pub code: u8,
}

/// The opcode registered last under `name` among the byte values below `n`.
pub open spec fn last_named_below(name: Seq<char>, n: nat) -> Option<u8>
    decreases n,
{
    if n == 0 {
        None
    } else if opcode_name_of((n - 1) as u8) == name {
        Some((n - 1) as u8)
    } else {
        last_named_below(name, (n - 1) as nat)
    }
}

/// What the table maps `name` to: the byte value registered last under it,
/// if any opcode has that name.
pub open spec fn opcode_named(name: Seq<char>) -> Option<u8> {
    last_named_below(name, OPCODE_COUNT as nat)
}

/// Name to opcode lookup, built once and never changed afterwards.
pub struct OpcodeTable {
    names: Vec<String>,
}

impl OpcodeTable {
    /// The names, indexed by byte value.
    pub closed spec fn view(&self) -> Seq<Seq<char>> {
        self.names@.map_values(|s: String| s@)
    }

    /// Every byte value is registered under its canonical name.
    pub open spec fn wf(&self) -> bool {
        &&& self@.len() == OPCODE_COUNT
        &&& forall|i: int| 0 <= i < OPCODE_COUNT ==> #[trigger] self@[i] == opcode_name_of(i as u8)
    }

    /// Registers all 256 opcodes under their names.
    pub fn build() -> (r: OpcodeTable)
        ensures
            r.wf(),
    {
        let mut names: Vec<String> = Vec::with_capacity(OPCODE_COUNT);
        let mut i: usize = 0;
        while i < OPCODE_COUNT
            invariant
                i <= OPCODE_COUNT,
                names@.len() == i,
                forall|j: int| 0 <= j < i ==> #[trigger] names@[j]@ == opcode_name_of(j as u8),
            decreases OPCODE_COUNT - i,
        {
            names.push(opcode_name(i as u8));
            i = i + 1;
        }
        OpcodeTable { names }
    }

    /// The opcode that `name` stands for; where two opcodes share a name the
    /// one registered last wins.
    pub fn lookup(&self, name: &String) -> (r: Option<Opcode>)
        requires
            self.wf(),
        ensures
            r matches Some(op) ==> opcode_named(name@) == Some(op.code),
            r is None ==> opcode_named(name@) is None,
    {
        let mut i: usize = OPCODE_COUNT;
        while i > 0
            invariant
                i <= OPCODE_COUNT,
                self.wf(),
                opcode_named(name@) == last_named_below(name@, i as nat),
            decreases i,
        {
            proof {
                assert(self@[i - 1] == opcode_name_of((i - 1) as u8));
            }
            if self.names[i - 1] == *name {
                return Some(Opcode { code: (i - 1) as u8 });
            }
            i = i - 1;
        }
        None
    }
}

} // verus!
