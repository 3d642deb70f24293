//! The initial user stack of a new task, laid out within the page of its
//! top:
//!
//! ```text
//! high addresses
//!   argv strings, each followed by a zero byte
//!   NULL
//!   argv[n - 1] ... argv[0]
//!   argc                      <- sp
//! low addresses
//! ```
use vstd::prelude::*;
use crate::error::Error;

verus! {

/// Bytes of one word of the initial stack frame.
pub const WORD: u64 = 8;

/// Where the parts of an initial stack go: the stack pointer, the address of
/// each argument string and the words of the frame at the stack pointer
/// (`argc`, the string addresses, a null word).
#[derive(Clone, Debug)]
pub struct InitialStack {
    pub sp: u64,
    pub string_addrs: Vec<u64>,
    pub frame: Vec<u64>,
}

/// Bytes the strings `lens[i..]` take, each with its zero byte.
pub open spec fn strings_from(lens: Seq<usize>, i: int) -> int
    decreases lens.len() - i,
{
    if i >= lens.len() || i < 0 {
        0
    } else {
        lens[i] + 1 + strings_from(lens, i + 1)
    }
}

/// Bytes the whole initial stack needs: the strings and `argc + 2` words.
pub open spec fn stack_len(lens: Seq<usize>) -> int {
    strings_from(lens, 0) + (lens.len() + 2) * 8
}

/// The address of string `i` below `top`: the later strings lie above it.
pub open spec fn string_addr(top: int, lens: Seq<usize>, i: int) -> int {
    top - strings_from(lens, i)
}

proof fn lemma_strings_from_step(lens: Seq<usize>, i: int)
    requires
        0 <= i < lens.len(),
    ensures
        strings_from(lens, i) == lens[i] + 1 + strings_from(lens, i + 1),
        strings_from(lens, i + 1) >= 0,
{
    lemma_strings_from_nonneg(lens, i + 1);
}

proof fn lemma_strings_from_nonneg(lens: Seq<usize>, i: int)
    ensures
        strings_from(lens, i) >= 0,
    decreases lens.len() - i,
{
    if 0 <= i < lens.len() {
        lemma_strings_from_nonneg(lens, i + 1);
    }
}

/// Lays out the initial stack for arguments of lengths `arg_lens` below
/// `user_sp`: the strings from the top down, last argument highest, and the
/// frame at the stack pointer, the 16-byte aligned address below them all.
/// Everything must fit in the page of `user_sp`.
pub fn initial_stack_layout(user_sp: u64, arg_lens: &Vec<usize>) -> (r: Result<InitialStack, Error>)
    requires
        stack_len(arg_lens@) <= user_sp % 4096,
    ensures
        r is Ok,
        ({
            let st = r->Ok_0;
            let lens = arg_lens@;
            let n = lens.len() as int;
            &&& st.sp == (user_sp - stack_len(lens)) - (user_sp - stack_len(lens)) % 16
            &&& st.sp >= user_sp - user_sp % 4096
            &&& st.string_addrs@.len() == n
            &&& forall|i: int| 0 <= i < n ==> #[trigger] st.string_addrs@[i] == string_addr(user_sp as int, lens, i)
            &&& st.frame@.len() == n + 2
            &&& st.frame@[0] == n
            &&& forall|i: int| 0 <= i < n ==> #[trigger] st.frame@[i + 1] == st.string_addrs@[i]
            &&& st.frame@[n + 1] == 0
        }),
{
    let ghost lens = arg_lens@;
    let n = arg_lens.len();
    proof {
        lemma_strings_from_nonneg(lens, 0);
    }
    // Strings from the last argument down, as the cursor moves down.
    let mut addrs: Vec<u64> = vec![0u64; n];
    let mut cursor: u64 = user_sp;
    let mut i: usize = n;
    while i > 0
        invariant
            i <= n,
            n == lens.len(),
            lens == arg_lens@,
            addrs.len() == n,
            stack_len(lens) <= user_sp % 4096,
            cursor == user_sp - strings_from(lens, i as int),
            forall|j: int| i <= j < n ==> #[trigger] addrs@[j] == string_addr(user_sp as int, lens, j),
        decreases i,
    {
        proof {
            lemma_strings_from_step(lens, i - 1);
            lemma_strings_from_nonneg(lens, 0);
            lemma_suffix_le(lens, i - 1);
        }
        let len = arg_lens[i - 1];
        cursor = cursor - (len as u64 + 1);
        addrs.set(i - 1, cursor);
        i -= 1;
    }
    let strings_len: u64 = user_sp - cursor;
    let total = strings_len + (n as u64 + 2) * WORD;
    let unaligned = user_sp - total;
    let sp = unaligned - unaligned % 16;
    let mut frame: Vec<u64> = Vec::new();
    frame.push(n as u64);
    let mut k: usize = 0;
    while k < n
        invariant
            k <= n,
            n == addrs.len(),
            frame@.len() == k + 1,
            frame@[0] == n,
            forall|j: int| 0 <= j < k ==> #[trigger] frame@[j + 1] == addrs@[j],
        decreases n - k,
    {
        frame.push(addrs[k]);
        k += 1;
    }
    frame.push(0);
    Ok(InitialStack { sp, string_addrs: addrs, frame })
}

proof fn lemma_suffix_le(lens: Seq<usize>, i: int)
    requires
        0 <= i <= lens.len(),
    ensures
        strings_from(lens, i) <= strings_from(lens, 0),
    decreases i,
{
    if i > 0 {
        lemma_strings_from_step(lens, i - 1);
        lemma_suffix_le(lens, i - 1);
    }
}

} // verus!
