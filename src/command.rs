use vstd::prelude::*;

verus! {

/// The token `@@` that stands for the input file in a command template.
pub open spec fn placeholder() -> Seq<u8> {
    seq![64u8, 64u8]
}

/// Position `i` holds the first placeholder of `cmd`.
pub open spec fn is_first_placeholder(cmd: Seq<Seq<u8>>, i: int) -> bool {
    0 <= i < cmd.len() && cmd[i] == placeholder() && forall|j: int| 0 <= j < i ==> cmd[j] != placeholder()
}

/// `cmd` with its first placeholder, if any, replaced by `input`.
pub open spec fn with_input_file(cmd: Seq<Seq<u8>>, input: Seq<u8>) -> Seq<Seq<u8>> {
    Seq::new(cmd.len(), |i: int| if is_first_placeholder(cmd, i) { input } else { cmd[i] })
}

/// The target reads its input from standard input: no argument is the placeholder.
pub open spec fn reads_stdin(cmd: Seq<Seq<u8>>) -> bool {
    forall|i: int| 0 <= i < cmd.len() ==> cmd[i] != placeholder()
}

/// The view of a list of arguments.
pub open spec fn args_view(v: Seq<Vec<u8>>) -> Seq<Seq<u8>> {
    Seq::new(v.len(), |i: int| v[i]@)
}

/// Tells whether `arg` is the placeholder.
fn is_placeholder(arg: &Vec<u8>) -> (r: bool)
    ensures
        r == (arg@ == placeholder()),
{
    if arg.len() == 2 && arg[0] == 64u8 && arg[1] == 64u8 {
        assert(arg@ =~= placeholder());
        true
    } else {
        false
    }
}

/// Tells whether a command template takes its input on standard input.
pub fn uses_standard_input(command: &Vec<Vec<u8>>) -> (r: bool)
    ensures
        r == reads_stdin(args_view(command@)),
{
    let mut i: usize = 0;
    while i < command.len()
        invariant
            i <= command@.len(),
            forall|j: int| 0 <= j < i ==> command@[j]@ != placeholder(),
        decreases command@.len() - i,
    {
        if is_placeholder(&command[i]) {
            assert(args_view(command@)[i as int] == placeholder());
            return false;
        }
        i = i + 1;
    }
    true
}

/// Replaces the first placeholder of a command template by the path of the
/// input file; a template without one comes back unchanged.
pub fn insert_input_file(command: &Vec<Vec<u8>>, input_file: &[u8]) -> (r: Vec<Vec<u8>>)
    ensures
        args_view(r@) == with_input_file(args_view(command@), input_file@),
{
    let ghost cmd = args_view(command@);
    let mut r: Vec<Vec<u8>> = Vec::new();
    let mut seen = false;
    let mut i: usize = 0;
    while i < command.len()
        invariant
            cmd == args_view(command@),
            i <= command@.len(),
            r@.len() == i,
            seen <==> exists|j: int| 0 <= j < i && cmd[j] == placeholder(),
            forall|j: int| 0 <= j < i ==> (#[trigger] r@[j])@ == with_input_file(cmd, input_file@)[j],
        decreases command@.len() - i,
    {
        let here = is_placeholder(&command[i]);
        if here && !seen {
            r.push(vstd::slice::slice_to_vec(input_file));
            assert(is_first_placeholder(cmd, i as int));
            seen = true;
        } else {
            r.push(vstd::slice::slice_to_vec(command[i].as_slice()));
            proof {
                if here {
                    let j = choose|j: int| 0 <= j < i && cmd[j] == placeholder();
                    assert(!is_first_placeholder(cmd, i as int));
                } else {
                    assert(!is_first_placeholder(cmd, i as int));
                }
            }
        }
        i = i + 1;
    }
    assert(args_view(r@) =~= with_input_file(cmd, input_file@));
    r
}


/// Seconds that the supervisor grants the symbolic run before asking it to stop.
pub const RUN_TIMEOUT_SECS: u64 = 90;

/// The separator `--` that ends the fuzzer's own options.
pub open spec fn separator() -> Seq<u8> {
    seq![45u8, 45u8]
}

/// The supervisor's options ahead of the command: `-k 5 90`, a hard limit of
/// 90 seconds and 5 more before the kill.
pub open spec fn supervisor_options() -> Seq<Seq<u8>> {
    seq![seq![45u8, 107u8], seq![53u8], seq![57u8, 48u8]]
}

/// The coverage tool's options ahead of its output file: `-t 5000 -m none -b -o`.
pub open spec fn showmap_options() -> Seq<Seq<u8>> {
    seq![
        seq![45u8, 116u8],
        seq![53u8, 48u8, 48u8, 48u8],
        seq![45u8, 109u8],
        seq![110u8, 111u8, 110u8, 101u8],
        seq![45u8, 98u8],
        seq![45u8, 111u8],
    ]
}

/// Arguments of the timeout supervisor that runs the symbolic target.
pub fn supervisor_arguments(fixed_command: &Vec<Vec<u8>>) -> (r: Vec<Vec<u8>>)
    ensures
        args_view(r@) == supervisor_options() + args_view(fixed_command@),
{
    let mut r: Vec<Vec<u8>> = Vec::new();
    push_arg(&mut r, vec![45u8, 107u8]);
    push_arg(&mut r, vec![53u8]);
    push_arg(&mut r, vec![57u8, 48u8]);
    assert(args_view(r@) =~~= supervisor_options());
    append_args(&mut r, fixed_command);
    r
}

/// Arguments of the coverage tool that measures `candidate`: its options, the
/// map file it writes, `--`, then the target with the candidate's path in place
/// of the placeholder.
pub fn showmap_arguments(bitmap_file: &[u8], target: &Vec<Vec<u8>>, candidate: &[u8]) -> (r: Vec<Vec<u8>>)
    ensures
        args_view(r@) == showmap_options() + seq![bitmap_file@, separator()] + with_input_file(
            args_view(target@),
            candidate@,
        ),
{
    let mut r: Vec<Vec<u8>> = Vec::new();
    push_arg(&mut r, vec![45u8, 116u8]);
    push_arg(&mut r, vec![53u8, 48u8, 48u8, 48u8]);
    push_arg(&mut r, vec![45u8, 109u8]);
    push_arg(&mut r, vec![110u8, 111u8, 110u8, 101u8]);
    push_arg(&mut r, vec![45u8, 98u8]);
    push_arg(&mut r, vec![45u8, 111u8]);
    push_arg(&mut r, vstd::slice::slice_to_vec(bitmap_file));
    push_arg(&mut r, vec![45u8, 45u8]);
    let ghost head = args_view(r@);
    assert(head =~= showmap_options() + seq![bitmap_file@, separator()]);
    let fixed = insert_input_file(target, candidate);
    append_args(&mut r, &fixed);
    r
}

fn push_arg(r: &mut Vec<Vec<u8>>, arg: Vec<u8>)
    ensures
        args_view(final(r)@) == args_view(old(r)@).push(arg@),
{
    r.push(arg);
    assert(args_view(final(r)@) =~= args_view(old(r)@).push(arg@));
}

fn append_args(r: &mut Vec<Vec<u8>>, more: &Vec<Vec<u8>>)
    ensures
        args_view(final(r)@) == args_view(old(r)@) + args_view(more@),
{
    let ghost start = args_view(r@);
    let mut i: usize = 0;
    while i < more.len()
        invariant
            i <= more@.len(),
            args_view(r@) == start + args_view(more@).subrange(0, i as int),
        decreases more@.len() - i,
    {
        push_arg(r, vstd::slice::slice_to_vec(more[i].as_slice()));
        i = i + 1;
        assert(args_view(r@) =~= start + args_view(more@).subrange(0, i as int));
    }
    assert(args_view(more@).subrange(0, i as int) =~= args_view(more@));
}

/// The target command inside the fuzzer's own command line: what follows
/// the first `--`, or nothing where there is none.
pub open spec fn target_of(afl: Seq<Seq<u8>>) -> Seq<Seq<u8>> {
    if exists|i: int| 0 <= i < afl.len() && afl[i] == separator() {
        let i = choose|i: int|
            0 <= i < afl.len() && afl[i] == separator() && forall|j: int| 0 <= j < i ==> afl[j] != separator();
        afl.subrange(i + 1, afl.len() as int)
    } else {
        Seq::empty()
    }
}

fn args_from(v: &Vec<Vec<u8>>, start: usize) -> (r: Vec<Vec<u8>>)
    requires
        start <= v@.len(),
    ensures
        args_view(r@) == args_view(v@).subrange(start as int, v@.len() as int),
{
    let mut r: Vec<Vec<u8>> = Vec::new();
    let mut k: usize = start;
    while k < v.len()
        invariant
            start <= k <= v@.len(),
            args_view(r@) == args_view(v@).subrange(start as int, k as int),
        decreases v@.len() - k,
    {
        push_arg(&mut r, vstd::slice::slice_to_vec(v[k].as_slice()));
        k = k + 1;
        assert(args_view(r@) =~= args_view(v@).subrange(start as int, k as int));
    }
    r
}

/// Picks the target command out of the fuzzer's command line.
pub fn target_command(afl_command: &Vec<Vec<u8>>) -> (r: Vec<Vec<u8>>)
    ensures
        args_view(r@) == target_of(args_view(afl_command@)),
{
    let ghost afl = args_view(afl_command@);
    let mut i: usize = 0;
    while i < afl_command.len()
        invariant
            afl == args_view(afl_command@),
            i <= afl.len(),
            forall|j: int| 0 <= j < i ==> afl[j] != separator(),
        decreases afl.len() - i,
    {
        let a = &afl_command[i];
        if a.len() == 2 && a[0] == 45u8 && a[1] == 45u8 {
            assert(afl[i as int] =~= separator());
            let r = args_from(afl_command, i + 1);
            proof {
                let c = choose|c: int|
                    0 <= c < afl.len() && afl[c] == separator() && forall|j: int| 0 <= j < c ==> afl[j] != separator();
                assert(c == i) by {
                    if c < i {
                    } else if c > i {
                        assert(afl[i as int] == separator());
                    }
                }
            }
            return r;
        }
        assert(afl[i as int] != separator()) by {
            if afl[i as int] == separator() {
                assert(afl[i as int][0] == 45u8);
            }
        }
        i = i + 1;
    }
    Vec::new()
}

/// The decimal digits of `n`, most significant first.
pub open spec fn decimal(n: nat) -> Seq<u8>
    decreases n,
{
    if n < 10 {
        seq![(48 + n) as u8]
    } else {
        decimal(n / 10) + seq![(48 + n % 10) as u8]
    }
}

/// `n` in decimal, padded on the left with zeros to at least `width` digits.
pub open spec fn zero_padded(n: nat, width: nat) -> Seq<u8> {
    let missing: nat = if decimal(n).len() < width { (width - decimal(n).len()) as nat } else { 0 };
    Seq::new(missing, |i: int| 48u8) + decimal(n)
}

/// The name under which an imported case is stored: `id:` and the sequence
/// number in six digits at least, then `,src:` and the name of the case it
/// came from.
pub open spec fn entry_name(id: nat, orig: Seq<u8>) -> Seq<u8> {
    seq![105u8, 100u8, 58u8] + zero_padded(id, 6) + seq![44u8, 115u8, 114u8, 99u8, 58u8] + orig
}

fn push_decimal(n: u64, out: &mut Vec<u8>)
    ensures
        final(out)@ == old(out)@ + decimal(n as nat),
    decreases n,
{
    if n >= 10 {
        push_decimal(n / 10, out);
    }
    out.push((48 + n % 10) as u8);
    assert(final(out)@ =~= old(out)@ + decimal(n as nat));
}

/// Builds the name of the `id`-th imported case, which came from `orig`.
pub fn queue_entry_name(id: u64, orig: &[u8]) -> (r: Vec<u8>)
    ensures
        r@ == entry_name(id as nat, orig@),
{
    let mut digits: Vec<u8> = Vec::new();
    push_decimal(id, &mut digits);
    assert(digits@ =~= decimal(id as nat));
    let mut r: Vec<u8> = vec![105u8, 100u8, 58u8];
    let ghost prefix = r@;
    let mut pad: usize = 0;
    let missing: usize = if digits.len() < 6 { 6 - digits.len() } else { 0 };
    while pad < missing
        invariant
            pad <= missing,
            r@ == prefix + Seq::new(pad as nat, |i: int| 48u8),
        decreases missing - pad,
    {
        r.push(48u8);
        pad = pad + 1;
        assert(r@ =~= prefix + Seq::new(pad as nat, |i: int| 48u8));
    }
    let mut i: usize = 0;
    let ghost padded = r@;
    while i < digits.len()
        invariant
            i <= digits@.len(),
            r@ == padded + digits@.subrange(0, i as int),
        decreases digits@.len() - i,
    {
        r.push(digits[i]);
        i = i + 1;
        assert(r@ =~= padded + digits@.subrange(0, i as int));
    }
    let tail: Vec<u8> = vec![44u8, 115u8, 114u8, 99u8, 58u8];
    let mut k: usize = 0;
    let ghost named = r@;
    while k < tail.len()
        invariant
            k <= tail@.len(),
            r@ == named + tail@.subrange(0, k as int),
        decreases tail@.len() - k,
    {
        r.push(tail[k]);
        k = k + 1;
        assert(r@ =~= named + tail@.subrange(0, k as int));
    }
    let mut m: usize = 0;
    let ghost labelled = r@;
    while m < orig.len()
        invariant
            m <= orig@.len(),
            r@ == labelled + orig@.subrange(0, m as int),
        decreases orig@.len() - m,
    {
        r.push(orig[m]);
        m = m + 1;
        assert(r@ =~= labelled + orig@.subrange(0, m as int));
    }
    assert(r@ =~= entry_name(id as nat, orig@));
    r
}

} // verus!
