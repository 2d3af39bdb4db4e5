//! The simulator command line and the role decision of the two-phase
//! self-invocation protocol. The compiled binary, launched normally, is the
//! driver: it builds this command line and launches itself under the
//! simulator with a reserved first argument. Launched with that argument it
//! is the measured process: it runs only benchmark code and exits.

use vstd::prelude::*;

use crate::bytes::views;

verus! {

/// Which role this invocation plays, decided once at startup from the
/// process arguments.
#[derive(Clone, Copy, Debug, PartialEq, Eq, Structural)]
pub enum Role {
    /// Launched normally: locate the simulator, run it, parse and report.
    Driver,
    /// Re-invoked under the simulator: run the benchmark bodies and exit.
    Measured,
}

/// How the simulator is launched, fixed by what the host platform offers
/// for suppressing address layout randomization. Randomized layout perturbs
/// instruction counts, so it is suppressed wherever a mechanism exists; with
/// none, or where the user opts out, the simulator runs plain.
pub enum SimulatorLaunch {
    /// Run the simulator directly.
    Plain,
    /// Prefix with `setarch <arch> -R`, the randomization suppression of the
    /// Linux platform; the payload is the machine architecture name.
    SetArch(Vec<u8>),
    /// Prefix with `proccontrol -m aslr -s disable`, the suppression of the
    /// BSD platform.
    ProcControl,
}

/// The simulator executable name, `valgrind`.
pub open spec fn lit_valgrind() -> Seq<u8> {
    seq![118u8, 97u8, 108u8, 103u8, 114u8, 105u8, 110u8, 100u8]
}

/// `setarch`, the tool that disables address layout randomization.
pub open spec fn lit_setarch() -> Seq<u8> {
    seq![115u8, 101u8, 116u8, 97u8, 114u8, 99u8, 104u8]
}

/// The `-R` switch of `setarch`.
pub open spec fn lit_dash_r() -> Seq<u8> {
    seq![45u8, 82u8]
}

/// `proccontrol`, the process-control tool of the BSD platform.
pub open spec fn lit_proccontrol() -> Seq<u8> {
    seq![112u8, 114u8, 111u8, 99u8, 99u8, 111u8, 110u8, 116u8, 114u8, 111u8, 108u8]
}

/// The `-m` switch of `proccontrol`.
pub open spec fn lit_dash_m() -> Seq<u8> {
    seq![45u8, 109u8]
}

/// The `aslr` mode name for `proccontrol`.
pub open spec fn lit_aslr() -> Seq<u8> {
    seq![97u8, 115u8, 108u8, 114u8]
}

/// The `-s` switch of `proccontrol`.
pub open spec fn lit_dash_s() -> Seq<u8> {
    seq![45u8, 115u8]
}

/// The `disable` argument for `proccontrol`.
pub open spec fn lit_disable() -> Seq<u8> {
    seq![100u8, 105u8, 115u8, 97u8, 98u8, 108u8, 101u8]
}

/// `--tool=callgrind`: select the instruction-level simulator.
pub open spec fn lit_tool() -> Seq<u8> {
    seq![45u8, 45u8, 116u8, 111u8, 111u8, 108u8, 61u8, 99u8, 97u8, 108u8, 108u8, 103u8, 114u8, 105u8, 110u8, 100u8]
}

/// `--I1=32768,8,64`: a fixed instruction L1 geometry, so runs compare across machines.
pub open spec fn lit_i1() -> Seq<u8> {
    seq![45u8, 45u8, 73u8, 49u8, 61u8, 51u8, 50u8, 55u8, 54u8, 56u8, 44u8, 56u8, 44u8, 54u8, 52u8]
}

/// `--D1=32768,8,64`: a fixed data L1 geometry.
pub open spec fn lit_d1() -> Seq<u8> {
    seq![45u8, 45u8, 68u8, 49u8, 61u8, 51u8, 50u8, 55u8, 54u8, 56u8, 44u8, 56u8, 44u8, 54u8, 52u8]
}

/// `--LL=8388608,16,64`: a fixed last-level cache geometry.
pub open spec fn lit_ll() -> Seq<u8> {
    seq![45u8, 45u8, 76u8, 76u8, 61u8, 56u8, 51u8, 56u8, 56u8, 54u8, 48u8, 56u8, 44u8, 49u8, 54u8, 44u8, 54u8, 52u8]
}

/// `--cache-sim=yes`: turn the cache simulation on.
pub open spec fn lit_cache_sim() -> Seq<u8> {
    seq![45u8, 45u8, 99u8, 97u8, 99u8, 104u8, 101u8, 45u8, 115u8, 105u8, 109u8, 61u8, 121u8, 101u8, 115u8]
}

/// `--callgrind-out-file=`, completed with the output path.
pub open spec fn lit_out_prefix() -> Seq<u8> {
    seq![45u8, 45u8, 99u8, 97u8, 108u8, 108u8, 103u8, 114u8, 105u8, 110u8, 100u8, 45u8, 111u8, 117u8, 116u8, 45u8, 102u8, 105u8, 108u8, 101u8, 61u8]
}

/// `--compress-strings=no`: keep names readable for the parser.
pub open spec fn lit_compress_strings() -> Seq<u8> {
    seq![45u8, 45u8, 99u8, 111u8, 109u8, 112u8, 114u8, 101u8, 115u8, 115u8, 45u8, 115u8, 116u8, 114u8, 105u8, 110u8, 103u8, 115u8, 61u8, 110u8, 111u8]
}

/// `--compress-pos=no`: keep positions readable for the parser.
pub open spec fn lit_compress_pos() -> Seq<u8> {
    seq![45u8, 45u8, 99u8, 111u8, 109u8, 112u8, 114u8, 101u8, 115u8, 115u8, 45u8, 112u8, 111u8, 115u8, 61u8, 110u8, 111u8]
}

/// `--collect-atstart=no`: collect only inside benchmark boundaries.
pub open spec fn lit_collect_atstart() -> Seq<u8> {
    seq![45u8, 45u8, 99u8, 111u8, 108u8, 108u8, 101u8, 99u8, 116u8, 45u8, 97u8, 116u8, 115u8, 116u8, 97u8, 114u8, 116u8, 61u8, 110u8, 111u8]
}

/// `--toggle-collect=__iai_bench_`, completed with a benchmark name: the boundary at which the simulator starts and stops counting.
pub open spec fn lit_toggle_prefix() -> Seq<u8> {
    seq![45u8, 45u8, 116u8, 111u8, 103u8, 103u8, 108u8, 101u8, 45u8, 99u8, 111u8, 108u8, 108u8, 101u8, 99u8, 116u8, 61u8, 95u8, 95u8, 105u8, 97u8, 105u8, 95u8, 98u8, 101u8, 110u8, 99u8, 104u8, 95u8]
}

/// `--iai-run`: the reserved first argument that switches the re-invoked binary into measured mode.
pub open spec fn lit_run_flag() -> Seq<u8> {
    seq![45u8, 45u8, 105u8, 97u8, 105u8, 45u8, 114u8, 117u8, 110u8]
}

/// The bytes of `lit_valgrind`.
fn lit_valgrind_vec() -> (r: Vec<u8>)
    ensures
        r@ == lit_valgrind(),
{
    let a: [u8; 8] = [118u8, 97u8, 108u8, 103u8, 114u8, 105u8, 110u8, 100u8];
    let r = vstd::slice::slice_to_vec(a.as_slice());
    proof {
        assert(r@ =~= lit_valgrind());
    }
    r
}

/// The bytes of `lit_setarch`.
fn lit_setarch_vec() -> (r: Vec<u8>)
    ensures
        r@ == lit_setarch(),
{
    let a: [u8; 7] = [115u8, 101u8, 116u8, 97u8, 114u8, 99u8, 104u8];
    let r = vstd::slice::slice_to_vec(a.as_slice());
    proof {
        assert(r@ =~= lit_setarch());
    }
    r
}

/// The bytes of `lit_dash_r`.
fn lit_dash_r_vec() -> (r: Vec<u8>)
    ensures
        r@ == lit_dash_r(),
{
    let a: [u8; 2] = [45u8, 82u8];
    let r = vstd::slice::slice_to_vec(a.as_slice());
    proof {
        assert(r@ =~= lit_dash_r());
    }
    r
}

/// The bytes of `lit_proccontrol`.
fn lit_proccontrol_vec() -> (r: Vec<u8>)
    ensures
        r@ == lit_proccontrol(),
{
    let a: [u8; 11] = [112u8, 114u8, 111u8, 99u8, 99u8, 111u8, 110u8, 116u8, 114u8, 111u8, 108u8];
    let r = vstd::slice::slice_to_vec(a.as_slice());
    proof {
        assert(r@ =~= lit_proccontrol());
    }
    r
}

/// The bytes of `lit_dash_m`.
fn lit_dash_m_vec() -> (r: Vec<u8>)
    ensures
        r@ == lit_dash_m(),
{
    let a: [u8; 2] = [45u8, 109u8];
    let r = vstd::slice::slice_to_vec(a.as_slice());
    proof {
        assert(r@ =~= lit_dash_m());
    }
    r
}

/// The bytes of `lit_aslr`.
fn lit_aslr_vec() -> (r: Vec<u8>)
    ensures
        r@ == lit_aslr(),
{
    let a: [u8; 4] = [97u8, 115u8, 108u8, 114u8];
    let r = vstd::slice::slice_to_vec(a.as_slice());
    proof {
        assert(r@ =~= lit_aslr());
    }
    r
}

/// The bytes of `lit_dash_s`.
fn lit_dash_s_vec() -> (r: Vec<u8>)
    ensures
        r@ == lit_dash_s(),
{
    let a: [u8; 2] = [45u8, 115u8];
    let r = vstd::slice::slice_to_vec(a.as_slice());
    proof {
        assert(r@ =~= lit_dash_s());
    }
    r
}

/// The bytes of `lit_disable`.
fn lit_disable_vec() -> (r: Vec<u8>)
    ensures
        r@ == lit_disable(),
{
    let a: [u8; 7] = [100u8, 105u8, 115u8, 97u8, 98u8, 108u8, 101u8];
    let r = vstd::slice::slice_to_vec(a.as_slice());
    proof {
        assert(r@ =~= lit_disable());
    }
    r
}

/// The bytes of `lit_tool`.
fn lit_tool_vec() -> (r: Vec<u8>)
    ensures
        r@ == lit_tool(),
{
    let a: [u8; 16] = [45u8, 45u8, 116u8, 111u8, 111u8, 108u8, 61u8, 99u8, 97u8, 108u8, 108u8, 103u8, 114u8, 105u8, 110u8, 100u8];
    let r = vstd::slice::slice_to_vec(a.as_slice());
    proof {
        assert(r@ =~= lit_tool());
    }
    r
}

/// The bytes of `lit_i1`.
fn lit_i1_vec() -> (r: Vec<u8>)
    ensures
        r@ == lit_i1(),
{
    let a: [u8; 15] = [45u8, 45u8, 73u8, 49u8, 61u8, 51u8, 50u8, 55u8, 54u8, 56u8, 44u8, 56u8, 44u8, 54u8, 52u8];
    let r = vstd::slice::slice_to_vec(a.as_slice());
    proof {
        assert(r@ =~= lit_i1());
    }
    r
}

/// The bytes of `lit_d1`.
fn lit_d1_vec() -> (r: Vec<u8>)
    ensures
        r@ == lit_d1(),
{
    let a: [u8; 15] = [45u8, 45u8, 68u8, 49u8, 61u8, 51u8, 50u8, 55u8, 54u8, 56u8, 44u8, 56u8, 44u8, 54u8, 52u8];
    let r = vstd::slice::slice_to_vec(a.as_slice());
    proof {
        assert(r@ =~= lit_d1());
    }
    r
}

/// The bytes of `lit_ll`.
fn lit_ll_vec() -> (r: Vec<u8>)
    ensures
        r@ == lit_ll(),
{
    let a: [u8; 18] = [45u8, 45u8, 76u8, 76u8, 61u8, 56u8, 51u8, 56u8, 56u8, 54u8, 48u8, 56u8, 44u8, 49u8, 54u8, 44u8, 54u8, 52u8];
    let r = vstd::slice::slice_to_vec(a.as_slice());
    proof {
        assert(r@ =~= lit_ll());
    }
    r
}

/// The bytes of `lit_cache_sim`.
fn lit_cache_sim_vec() -> (r: Vec<u8>)
    ensures
        r@ == lit_cache_sim(),
{
    let a: [u8; 15] = [45u8, 45u8, 99u8, 97u8, 99u8, 104u8, 101u8, 45u8, 115u8, 105u8, 109u8, 61u8, 121u8, 101u8, 115u8];
    let r = vstd::slice::slice_to_vec(a.as_slice());
    proof {
        assert(r@ =~= lit_cache_sim());
    }
    r
}

/// The bytes of `lit_out_prefix`.
fn lit_out_prefix_vec() -> (r: Vec<u8>)
    ensures
        r@ == lit_out_prefix(),
{
    let a: [u8; 21] = [45u8, 45u8, 99u8, 97u8, 108u8, 108u8, 103u8, 114u8, 105u8, 110u8, 100u8, 45u8, 111u8, 117u8, 116u8, 45u8, 102u8, 105u8, 108u8, 101u8, 61u8];
    let r = vstd::slice::slice_to_vec(a.as_slice());
    proof {
        assert(r@ =~= lit_out_prefix());
    }
    r
}

/// The bytes of `lit_compress_strings`.
fn lit_compress_strings_vec() -> (r: Vec<u8>)
    ensures
        r@ == lit_compress_strings(),
{
    let a: [u8; 21] = [45u8, 45u8, 99u8, 111u8, 109u8, 112u8, 114u8, 101u8, 115u8, 115u8, 45u8, 115u8, 116u8, 114u8, 105u8, 110u8, 103u8, 115u8, 61u8, 110u8, 111u8];
    let r = vstd::slice::slice_to_vec(a.as_slice());
    proof {
        assert(r@ =~= lit_compress_strings());
    }
    r
}

/// The bytes of `lit_compress_pos`.
fn lit_compress_pos_vec() -> (r: Vec<u8>)
    ensures
        r@ == lit_compress_pos(),
{
    let a: [u8; 17] = [45u8, 45u8, 99u8, 111u8, 109u8, 112u8, 114u8, 101u8, 115u8, 115u8, 45u8, 112u8, 111u8, 115u8, 61u8, 110u8, 111u8];
    let r = vstd::slice::slice_to_vec(a.as_slice());
    proof {
        assert(r@ =~= lit_compress_pos());
    }
    r
}

/// The bytes of `lit_collect_atstart`.
fn lit_collect_atstart_vec() -> (r: Vec<u8>)
    ensures
        r@ == lit_collect_atstart(),
{
    let a: [u8; 20] = [45u8, 45u8, 99u8, 111u8, 108u8, 108u8, 101u8, 99u8, 116u8, 45u8, 97u8, 116u8, 115u8, 116u8, 97u8, 114u8, 116u8, 61u8, 110u8, 111u8];
    let r = vstd::slice::slice_to_vec(a.as_slice());
    proof {
        assert(r@ =~= lit_collect_atstart());
    }
    r
}

/// The bytes of `lit_toggle_prefix`.
fn lit_toggle_prefix_vec() -> (r: Vec<u8>)
    ensures
        r@ == lit_toggle_prefix(),
{
    let a: [u8; 29] = [45u8, 45u8, 116u8, 111u8, 103u8, 103u8, 108u8, 101u8, 45u8, 99u8, 111u8, 108u8, 108u8, 101u8, 99u8, 116u8, 61u8, 95u8, 95u8, 105u8, 97u8, 105u8, 95u8, 98u8, 101u8, 110u8, 99u8, 104u8, 95u8];
    let r = vstd::slice::slice_to_vec(a.as_slice());
    proof {
        assert(r@ =~= lit_toggle_prefix());
    }
    r
}

/// The bytes of `lit_run_flag`.
fn lit_run_flag_vec() -> (r: Vec<u8>)
    ensures
        r@ == lit_run_flag(),
{
    let a: [u8; 9] = [45u8, 45u8, 105u8, 97u8, 105u8, 45u8, 114u8, 117u8, 110u8];
    let r = vstd::slice::slice_to_vec(a.as_slice());
    proof {
        assert(r@ =~= lit_run_flag());
    }
    r
}

/// The launcher words that precede the simulator's own arguments.
pub open spec fn launch_prefix(l: SimulatorLaunch) -> Seq<Seq<u8>> {
    match l {
        SimulatorLaunch::Plain => seq![lit_valgrind()],
        SimulatorLaunch::SetArch(arch) => seq![
            lit_setarch(),
            arch@,
            lit_dash_r(),
            lit_valgrind(),
        ],
        SimulatorLaunch::ProcControl => seq![
            lit_proccontrol(),
            lit_dash_m(),
            lit_aslr(),
            lit_dash_s(),
            lit_disable(),
            lit_valgrind(),
        ],
    }
}

/// The per-benchmark boundary arguments, one per registered name, in
/// registry order. Boundaries exclude process startup from every
/// benchmark's counters; a once-per-process fixed cost of entering the
/// first toggle region may still leak into the first benchmark measured — a
/// known bias, kept for comparability with prior reports.
pub open spec fn toggle_args(names: Seq<Seq<u8>>) -> Seq<Seq<u8>> {
    names.map_values(|n: Seq<u8>| lit_toggle_prefix() + n)
}

/// The whole command line of one measurement run: the launcher, the fixed
/// simulator configuration (fixed cache geometry, uncompressed output,
/// collection off outside boundaries), the output file, one boundary toggle
/// per benchmark, then the binary itself re-invoked in measured mode.
pub open spec fn callgrind_command(
    launch: SimulatorLaunch,
    names: Seq<Seq<u8>>,
    out_file: Seq<u8>,
    executable: Seq<u8>,
) -> Seq<Seq<u8>> {
    launch_prefix(launch) + seq![
        lit_tool(),
        lit_i1(),
        lit_d1(),
        lit_ll(),
        lit_cache_sim(),
        lit_out_prefix() + out_file,
        lit_compress_strings(),
        lit_compress_pos(),
        lit_collect_atstart(),
    ] + toggle_args(names) + seq![executable, lit_run_flag()]
}

/// Decides the role of this invocation: measured mode exactly where the
/// first argument after the executable is the reserved flag.
pub fn decide_role(first_arg: Option<&Vec<u8>>) -> (r: Role)
    ensures
        r == Role::Measured <==> (first_arg matches Some(a) && a@ == lit_run_flag()),
        r == Role::Driver <==> !(first_arg matches Some(a) && a@ == lit_run_flag()),
{
    match first_arg {
        Some(a) => {
            let flag = lit_run_flag_vec();
            if crate::bytes::bytes_eq(a, &flag) {
                Role::Measured
            } else {
                Role::Driver
            }
        },
        None => Role::Driver,
    }
}

/// Builds the command line of one measurement run.
#[verifier::loop_isolation(false)]
pub fn build_callgrind_command(
    launch: &SimulatorLaunch,
    names: &Vec<Vec<u8>>,
    out_file: &Vec<u8>,
    executable: &Vec<u8>,
) -> (r: Vec<Vec<u8>>)
    ensures
        views(r@) == callgrind_command(*launch, views(names@), out_file@, executable@),
{
    let mut r: Vec<Vec<u8>> = Vec::new();
    match launch {
        SimulatorLaunch::Plain => {
            r.push(lit_valgrind_vec());
        },
        SimulatorLaunch::SetArch(arch) => {
            r.push(lit_setarch_vec());
            r.push(arch.clone());
            r.push(lit_dash_r_vec());
            r.push(lit_valgrind_vec());
        },
        SimulatorLaunch::ProcControl => {
            r.push(lit_proccontrol_vec());
            r.push(lit_dash_m_vec());
            r.push(lit_aslr_vec());
            r.push(lit_dash_s_vec());
            r.push(lit_disable_vec());
            r.push(lit_valgrind_vec());
        },
    }
    proof {
        assert(views(r@) =~= launch_prefix(*launch));
    }
    r.push(lit_tool_vec());
    r.push(lit_i1_vec());
    r.push(lit_d1_vec());
    r.push(lit_ll_vec());
    r.push(lit_cache_sim_vec());
    let mut out_arg = lit_out_prefix_vec();
    let mut out_copy = out_file.clone();
    out_arg.append(&mut out_copy);
    proof {
        assert(out_arg@ =~= lit_out_prefix() + out_file@);
    }
    r.push(out_arg);
    r.push(lit_compress_strings_vec());
    r.push(lit_compress_pos_vec());
    r.push(lit_collect_atstart_vec());
    let ghost before_toggles = views(r@);
    proof {
        assert(before_toggles =~= launch_prefix(*launch) + seq![
            lit_tool(),
            lit_i1(),
            lit_d1(),
            lit_ll(),
            lit_cache_sim(),
            lit_out_prefix() + out_file@,
            lit_compress_strings(),
            lit_compress_pos(),
            lit_collect_atstart(),
        ]);
        assert(toggle_args(views(names@).take(0)) =~= Seq::<Seq<u8>>::empty());
        assert(views(r@) =~= before_toggles + toggle_args(views(names@).take(0)));
    }
    let mut k: usize = 0;
    while k < names.len()
        invariant
            k <= names@.len(),
            views(r@) == before_toggles + toggle_args(views(names@).take(k as int)),
        decreases names@.len() - k,
    {
        let mut arg = lit_toggle_prefix_vec();
        let mut name_copy = names[k].clone();
        proof {
            assert(name_copy@ =~= names@[k as int]@);
        }
        arg.append(&mut name_copy);
        proof {
            assert(views(names@).take(k + 1) =~= views(names@).take(k as int).push(
                views(names@)[k as int],
            ));
            assert(toggle_args(views(names@).take(k + 1)) =~= toggle_args(
                views(names@).take(k as int),
            ).push(lit_toggle_prefix() + views(names@)[k as int]));
            assert(arg@ == lit_toggle_prefix() + views(names@)[k as int]);
            assert(views(r@.push(arg)) =~= views(r@).push(arg@));
        }
        r.push(arg);
        k = k + 1;
    }
    proof {
        assert(views(names@).take(names@.len() as int) =~= views(names@));
    }
    let mut exe = executable.clone();
    proof {
        assert(exe@ =~= executable@);
    }
    r.push(exe);
    r.push(lit_run_flag_vec());
    proof {
        assert(views(r@) =~= callgrind_command(
            *launch,
            views(names@),
            out_file@,
            executable@,
        ));
    }
    r
}


/// `--tool=cachegrind`: select the simpler whole-process simulator used by
/// the per-process backend.
pub open spec fn lit_tool_cachegrind() -> Seq<u8> {
    seq![45u8, 45u8, 116u8, 111u8, 111u8, 108u8, 61u8, 99u8, 97u8, 99u8, 104u8, 101u8, 103u8, 114u8, 105u8, 110u8, 100u8]
}

/// `--cachegrind-out-file=`, completed with the output path.
pub open spec fn lit_cachegrind_out_prefix() -> Seq<u8> {
    seq![45u8, 45u8, 99u8, 97u8, 99u8, 104u8, 101u8, 103u8, 114u8, 105u8, 110u8, 100u8, 45u8, 111u8, 117u8, 116u8, 45u8, 102u8, 105u8, 108u8, 101u8, 61u8]
}

/// `-1`: the sentinel index that selects the calibration no-op.
pub open spec fn lit_minus_one() -> Seq<u8> {
    seq![45u8, 49u8]
}

/// The bytes of `lit_tool_cachegrind`.
fn lit_tool_cachegrind_vec() -> (r: Vec<u8>)
    ensures
        r@ == lit_tool_cachegrind(),
{
    let a: [u8; 17] = [45u8, 45u8, 116u8, 111u8, 111u8, 108u8, 61u8, 99u8, 97u8, 99u8, 104u8, 101u8, 103u8, 114u8, 105u8, 110u8, 100u8];
    let r = vstd::slice::slice_to_vec(a.as_slice());
    proof {
        assert(r@ =~= lit_tool_cachegrind());
    }
    r
}

/// The bytes of `lit_cachegrind_out_prefix`.
fn lit_cachegrind_out_prefix_vec() -> (r: Vec<u8>)
    ensures
        r@ == lit_cachegrind_out_prefix(),
{
    let a: [u8; 22] = [45u8, 45u8, 99u8, 97u8, 99u8, 104u8, 101u8, 103u8, 114u8, 105u8, 110u8, 100u8, 45u8, 111u8, 117u8, 116u8, 45u8, 102u8, 105u8, 108u8, 101u8, 61u8];
    let r = vstd::slice::slice_to_vec(a.as_slice());
    proof {
        assert(r@ =~= lit_cachegrind_out_prefix());
    }
    r
}

/// The bytes of `lit_minus_one`.
fn lit_minus_one_vec() -> (r: Vec<u8>)
    ensures
        r@ == lit_minus_one(),
{
    let a: [u8; 2] = [45u8, 49u8];
    let r = vstd::slice::slice_to_vec(a.as_slice());
    proof {
        assert(r@ =~= lit_minus_one());
    }
    r
}

/// What a measured-mode invocation is to run. The single-process backend
/// passes no index and the child runs the whole registry; the per-process
/// backend selects one benchmark by its registry index, or the calibration
/// no-op that measures only startup and dispatch overhead.
#[derive(Clone, Copy, Debug, PartialEq, Eq, Structural)]
pub enum MeasuredSelector {
    /// Run every registered benchmark in order.
    WholeRegistry,
    /// Run the one benchmark at this registry index.
    Single(u64),
    /// Run nothing: capture the calibration baseline.
    CalibrationRun,
}

/// The selection that the argument after the reserved flag denotes: none
/// means the whole registry, the sentinel selects the calibration no-op, a
/// decimal number one benchmark; anything else is malformed.
pub open spec fn selector_of_arg(a: Option<Seq<u8>>) -> Option<MeasuredSelector> {
    match a {
        None => Some(MeasuredSelector::WholeRegistry),
        Some(s) => if s == lit_minus_one() {
            Some(MeasuredSelector::CalibrationRun)
        } else if crate::bytes::parses_as_u64(s) {
            Some(MeasuredSelector::Single(crate::bytes::dec_value(s) as u64))
        } else {
            None
        },
    }
}

/// The argument a selector puts after the reserved flag: nothing for the
/// whole registry, the index in decimal, or the calibration sentinel.
pub open spec fn selector_arg(sel: MeasuredSelector) -> Seq<u8> {
    match sel {
        MeasuredSelector::WholeRegistry => Seq::empty(),
        MeasuredSelector::Single(i) => crate::bytes::dec_digits(i as int),
        MeasuredSelector::CalibrationRun => lit_minus_one(),
    }
}

/// Reads the argument after the reserved flag. `None` where it is neither
/// the calibration sentinel nor a benchmark index.
pub fn parse_selector(arg: Option<&Vec<u8>>) -> (r: Option<MeasuredSelector>)
    ensures
        r == selector_of_arg(
            match arg {
                Some(a) => Some(a@),
                None => None,
            },
        ),
{
    match arg {
        None => Some(MeasuredSelector::WholeRegistry),
        Some(a) => {
            let sentinel = lit_minus_one_vec();
            if crate::bytes::bytes_eq(a, &sentinel) {
                Some(MeasuredSelector::CalibrationRun)
            } else {
                match crate::bytes::parse_u64_digits(a) {
                    Some(v) => Some(MeasuredSelector::Single(v)),
                    None => None,
                }
            }
        },
    }
}

/// The measured-mode selector survives the trip onto the child's command
/// line and back: rendering a selector that carries an argument and reading
/// that argument yields the selector again.
pub proof fn lemma_selector_round_trip(sel: MeasuredSelector)
    requires
        !(sel is WholeRegistry),
    ensures
        selector_of_arg(Some(selector_arg(sel))) == Some(sel),
{
    match sel {
        MeasuredSelector::WholeRegistry => {
        },
        MeasuredSelector::Single(i) => {
            crate::bytes::lemma_dec_round_trip(i as int);
            let s = crate::bytes::dec_digits(i as int);
            assert(s != lit_minus_one()) by {
                if s == lit_minus_one() {
                    assert(crate::bytes::is_digit(s[0]));
                    assert(s[0] == 45u8);
                }
            }
        },
        MeasuredSelector::CalibrationRun => {
        },
    }
}

/// The command line of one per-process measurement: the launcher, the
/// simpler simulator with the same fixed cache geometry, its output file,
/// then the binary re-invoked in measured mode with the selector's index.
pub open spec fn cachegrind_command(
    launch: SimulatorLaunch,
    out_file: Seq<u8>,
    executable: Seq<u8>,
    sel: MeasuredSelector,
) -> Seq<Seq<u8>> {
    launch_prefix(launch) + seq![
        lit_tool_cachegrind(),
        lit_i1(),
        lit_d1(),
        lit_ll(),
        lit_cache_sim(),
        lit_cachegrind_out_prefix() + out_file,
        executable,
        lit_run_flag(),
    ] + (match sel {
        MeasuredSelector::WholeRegistry => Seq::<Seq<u8>>::empty(),
        _ => seq![selector_arg(sel)],
    })
}

/// Builds the command line of one per-process measurement.
pub fn build_cachegrind_command(
    launch: &SimulatorLaunch,
    out_file: &Vec<u8>,
    executable: &Vec<u8>,
    sel: &MeasuredSelector,
) -> (r: Vec<Vec<u8>>)
    ensures
        views(r@) == cachegrind_command(*launch, out_file@, executable@, *sel),
{
    let mut r: Vec<Vec<u8>> = Vec::new();
    match launch {
        SimulatorLaunch::Plain => {
            r.push(lit_valgrind_vec());
        },
        SimulatorLaunch::SetArch(arch) => {
            r.push(lit_setarch_vec());
            r.push(arch.clone());
            r.push(lit_dash_r_vec());
            r.push(lit_valgrind_vec());
        },
        SimulatorLaunch::ProcControl => {
            r.push(lit_proccontrol_vec());
            r.push(lit_dash_m_vec());
            r.push(lit_aslr_vec());
            r.push(lit_dash_s_vec());
            r.push(lit_disable_vec());
            r.push(lit_valgrind_vec());
        },
    }
    proof {
        assert(views(r@) =~= launch_prefix(*launch));
    }
    r.push(lit_tool_cachegrind_vec());
    r.push(lit_i1_vec());
    r.push(lit_d1_vec());
    r.push(lit_ll_vec());
    r.push(lit_cache_sim_vec());
    let mut out_arg = lit_cachegrind_out_prefix_vec();
    let mut out_copy = out_file.clone();
    out_arg.append(&mut out_copy);
    proof {
        assert(out_arg@ =~= lit_cachegrind_out_prefix() + out_file@);
    }
    r.push(out_arg);
    let mut exe = executable.clone();
    proof {
        assert(exe@ =~= executable@);
    }
    r.push(exe);
    r.push(lit_run_flag_vec());
    match sel {
        MeasuredSelector::WholeRegistry => {
        },
        MeasuredSelector::Single(i) => {
            r.push(crate::bytes::u64_to_dec(*i));
        },
        MeasuredSelector::CalibrationRun => {
            r.push(lit_minus_one_vec());
        },
    }
    proof {
        assert(views(r@) =~= cachegrind_command(*launch, out_file@, executable@, *sel));
    }
    r
}

} // verus!
