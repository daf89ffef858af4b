//! The initial user stack of a new program: what is pushed, in what order,
//! and the picture it leaves in memory.
use vstd::prelude::*;

verus! {

/// The top of the user stack.
pub const USER_STACK_TOP: usize = 0x8000_0000;

/// How much stack is mapped before the program starts.
pub const USER_STACK_INIT_SIZE: usize = 0x20000;

/// Where a dynamically linked program is loaded.
pub const USER_DYN_ADDR: usize = 0x2000_0000;

/// The page size told to the program.
pub const AUX_PAGE_SIZE: usize = 4096;

pub const AT_NULL: usize = 0;
pub const AT_PHDR: usize = 3;
pub const AT_PHENT: usize = 4;
pub const AT_PHNUM: usize = 5;
pub const AT_PAGESZ: usize = 6;
pub const AT_ENTRY: usize = 9;
pub const AT_UID: usize = 11;
pub const AT_EUID: usize = 12;
pub const AT_GID: usize = 13;
pub const AT_EGID: usize = 14;
pub const AT_PLATFORM: usize = 15;
pub const AT_SECURE: usize = 23;
pub const AT_RANDOM: usize = 25;
pub const AT_EXECFN: usize = 31;

/// The auxiliary vector given to a program, in increasing order of type:
/// where its program headers are, their size and number, the page size,
/// its entry, the ids (all 0), the platform string, not secure, the 16
/// random bytes and the path it was run by.
pub open spec fn auxv_spec(
    entry: usize,
    ph_count: usize,
    ph_entry_size: usize,
    phdr: usize,
    platform_ptr: usize,
    execfn_ptr: usize,
    random_ptr: usize,
) -> Seq<(usize, usize)> {
    seq![
        (AT_PHDR, phdr),
        (AT_PHENT, ph_entry_size),
        (AT_PHNUM, ph_count),
        (AT_PAGESZ, AUX_PAGE_SIZE),
        (AT_ENTRY, entry),
        (AT_UID, 0usize),
        (AT_EUID, 0usize),
        (AT_GID, 0usize),
        (AT_EGID, 0usize),
        (AT_PLATFORM, platform_ptr),
        (AT_SECURE, 0usize),
        (AT_RANDOM, random_ptr),
        (AT_EXECFN, execfn_ptr),
    ]
}

/// The auxiliary vector of a program loaded at `base`, whose entry and
/// program headers are at `entry_point` and `ph_addr` from there.
pub fn auxv_entries(
    base: usize,
    entry_point: usize,
    ph_count: usize,
    ph_entry_size: usize,
    ph_addr: usize,
    platform_ptr: usize,
    execfn_ptr: usize,
    random_ptr: usize,
) -> (res: Vec<(usize, usize)>)
    requires
        base + entry_point <= usize::MAX,
        base + ph_addr <= usize::MAX,
    ensures
        res@ == auxv_spec(
            (base + entry_point) as usize,
            ph_count,
            ph_entry_size,
            (base + ph_addr) as usize,
            platform_ptr,
            execfn_ptr,
            random_ptr,
        ),
{
    let mut v: Vec<(usize, usize)> = Vec::new();
    v.push((AT_PHDR, base + ph_addr));
    v.push((AT_PHENT, ph_entry_size));
    v.push((AT_PHNUM, ph_count));
    v.push((AT_PAGESZ, AUX_PAGE_SIZE));
    v.push((AT_ENTRY, base + entry_point));
    v.push((AT_UID, 0));
    v.push((AT_EUID, 0));
    v.push((AT_GID, 0));
    v.push((AT_EGID, 0));
    v.push((AT_PLATFORM, platform_ptr));
    v.push((AT_SECURE, 0));
    v.push((AT_RANDOM, random_ptr));
    v.push((AT_EXECFN, execfn_ptr));
    proof {
        assert(v@ =~= auxv_spec(
            (base + entry_point) as usize,
            ph_count,
            ph_entry_size,
            (base + ph_addr) as usize,
            platform_ptr,
            execfn_ptr,
            random_ptr,
        ));
    }
    v
}

/// Each auxiliary entry as pushed: its value, then its type.
pub open spec fn aux_words(auxv: Seq<(usize, usize)>) -> Seq<usize>
    decreases auxv.len(),
{
    if auxv.len() == 0 {
        Seq::empty()
    } else {
        aux_words(auxv.drop_last()) + seq![auxv.last().1, auxv.last().0]
    }
}

/// The words pushed on the stack, the first pushed first: a 0 that ends the
/// auxiliary vector, its entries, a 0 that ends the environment, the
/// environment pointers from the last to the first, a 0 that ends the
/// arguments, the argument pointers from the last to the first, and the
/// number of arguments.
pub open spec fn push_order(args: Seq<usize>, envp: Seq<usize>, auxv: Seq<(usize, usize)>) -> Seq<
    usize,
> {
    seq![0usize] + aux_words(auxv) + seq![0usize] + envp.reverse() + seq![0usize] + args.reverse()
        + seq![args.len() as usize]
}

/// Each auxiliary entry as it reads upwards in memory: its type, then its
/// value, the entry pushed last first.
pub open spec fn aux_image(auxv: Seq<(usize, usize)>) -> Seq<usize>
    decreases auxv.len(),
{
    if auxv.len() == 0 {
        Seq::empty()
    } else {
        seq![auxv.last().0, auxv.last().1] + aux_image(auxv.drop_last())
    }
}

/// The stack as the program finds it, upwards from its stack pointer: the
/// number of arguments, the argument pointers and a 0, the environment
/// pointers and a 0, the auxiliary entries and a closing 0.
pub open spec fn stack_image(args: Seq<usize>, envp: Seq<usize>, auxv: Seq<(usize, usize)>) -> Seq<
    usize,
> {
    seq![args.len() as usize] + args + seq![0usize] + envp + seq![0usize] + aux_image(auxv) + seq![
        0usize,
    ]
}

/// The words to push on a new program's stack, in the order pushed, for
/// argument and environment pointers `args` and `envp` (in the order the
/// program reads them) and the auxiliary vector `auxv`.
pub fn stack_words(args: &[usize], envp: &[usize], auxv: &[(usize, usize)]) -> (res: Vec<usize>)
    ensures
        res@ == push_order(args@, envp@, auxv@),
{
    let mut out: Vec<usize> = Vec::new();
    out.push(0);
    let mut i: usize = 0;
    while i < auxv.len()
        invariant
            i <= auxv@.len(),
            out@ == seq![0usize] + aux_words(auxv@.subrange(0, i as int)),
        decreases auxv@.len() - i,
    {
        proof {
            assert(auxv@.subrange(0, i + 1).drop_last() =~= auxv@.subrange(0, i as int));
        }
        out.push(auxv[i].1);
        out.push(auxv[i].0);
        i = i + 1;
        proof {
            assert(out@ =~= seq![0usize] + aux_words(auxv@.subrange(0, i as int)));
        }
    }
    proof {
        assert(auxv@.subrange(0, auxv@.len() as int) =~= auxv@);
    }
    out.push(0);
    let ghost mid = out@;
    let mut j: usize = envp.len();
    while j > 0
        invariant
            j <= envp@.len(),
            out@ == mid + envp@.subrange(j as int, envp@.len() as int).reverse(),
        decreases j,
    {
        j = j - 1;
        out.push(envp[j]);
        proof {
            assert(envp@.subrange(j as int, envp@.len() as int).reverse() =~= envp@.subrange(
                j + 1,
                envp@.len() as int,
            ).reverse().push(envp@[j as int]));
        }
    }
    proof {
        assert(envp@.subrange(0, envp@.len() as int) =~= envp@);
    }
    out.push(0);
    let ghost mid2 = out@;
    let mut k: usize = args.len();
    while k > 0
        invariant
            k <= args@.len(),
            out@ == mid2 + args@.subrange(k as int, args@.len() as int).reverse(),
        decreases k,
    {
        k = k - 1;
        out.push(args[k]);
        proof {
            assert(args@.subrange(k as int, args@.len() as int).reverse() =~= args@.subrange(
                k + 1,
                args@.len() as int,
            ).reverse().push(args@[k as int]));
        }
    }
    proof {
        assert(args@.subrange(0, args@.len() as int) =~= args@);
    }
    out.push(args.len());
    proof {
        assert(out@ =~= push_order(args@, envp@, auxv@));
    }
    out
}

/// Pushed words read back upwards in memory come in the reverse order.
proof fn lemma_aux_reverse(auxv: Seq<(usize, usize)>)
    ensures
        aux_words(auxv).reverse() == aux_image(auxv),
    decreases auxv.len(),
{
    if auxv.len() > 0 {
        lemma_aux_reverse(auxv.drop_last());
        let a = aux_words(auxv.drop_last());
        let l = seq![auxv.last().1, auxv.last().0];
        assert((a + l).reverse() =~= l.reverse() + a.reverse());
        assert(l.reverse() =~= seq![auxv.last().0, auxv.last().1]);
    } else {
        assert(aux_words(auxv).reverse() =~= Seq::<usize>::empty());
    }
}

/// The stack the program finds: pushing the words of `stack_words` one by
/// one, downwards, leaves above the final stack pointer the number of
/// arguments, the argument pointers and a 0, the environment pointers and a
/// 0, then the auxiliary entries (type, value) and a closing 0.
pub proof fn lemma_stack_image(args: Seq<usize>, envp: Seq<usize>, auxv: Seq<(usize, usize)>)
    ensures
        push_order(args, envp, auxv).reverse() == stack_image(args, envp, auxv),
{
    lemma_aux_reverse(auxv);
    let z = seq![0usize];
    let n = seq![args.len() as usize];
    let a = aux_words(auxv);
    assert(args.reverse().reverse() =~= args);
    assert(envp.reverse().reverse() =~= envp);
    let p = z + a + z + envp.reverse() + z + args.reverse() + n;
    assert forall|x: Seq<usize>, y: Seq<usize>| #[trigger] (x + y).reverse() == y.reverse() + x.reverse() by {
        assert((x + y).reverse() =~= y.reverse() + x.reverse());
    }
    assert(z.reverse() =~= z);
    assert(n.reverse() =~= n);
    assert(p.reverse() =~= stack_image(args, envp, auxv));
}

/// Where a new program starts: the stack pointer at the top of the stack,
/// the program counter at its entry.
pub fn initial_registers(base: usize, entry_point: usize) -> (res: (usize, usize))
    requires
        base + entry_point <= usize::MAX,
    ensures
        res == (USER_STACK_TOP, (base + entry_point) as usize),
{
    (USER_STACK_TOP, base + entry_point)
}

/// The first address of the stack mapped before a program starts, and the
/// number of pages mapped.
pub fn initial_stack_area() -> (res: (usize, usize))
    ensures
        res == ((USER_STACK_TOP - USER_STACK_INIT_SIZE) as usize, (USER_STACK_INIT_SIZE / 4096) as usize),
{
    (USER_STACK_TOP - USER_STACK_INIT_SIZE, USER_STACK_INIT_SIZE / 4096)
}

} // verus!
