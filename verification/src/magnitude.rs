//! Where the decimal that the scaling steps pick stands against the binary value. For
//! `c * 2^q` its exponent is the decimal exponent of `2^q` (of `3/4 * 2^q` for a power of
//! two), from the brackets `2^t < 10^k <= 2^(t + 1)` proved case by case over every `k` a
//! finite float can have; and the rounding flags, read in exact arithmetic against an
//! accurate power of ten, place the significand in or beside the value's rounding interval.
use crate::text::{lemma_pow10_positive, pow10};
use crate::value::lemma_pow10_add;
use vstd::arithmetic::power2::{lemma2_to64, lemma2_to64_rest, lemma_pow2_adds, pow2};
use vstd::prelude::*;

verus! {

/// Numerator of `2^q` written as a fraction of naturals.
pub open spec fn pow2_num(q: int) -> nat {
    if q >= 0 {
        pow2(q as nat)
    } else {
        1
    }
}

/// Denominator of `2^q` written as a fraction of naturals.
pub open spec fn pow2_den(q: int) -> nat {
    if q >= 0 {
        1
    } else {
        pow2((-q) as nat)
    }
}

/// Numerator of `10^k` written as a fraction of naturals.
pub open spec fn pow10_num(k: int) -> nat {
    if k >= 0 {
        pow10(k as nat)
    } else {
        1
    }
}

/// Denominator of `10^k` written as a fraction of naturals.
pub open spec fn pow10_den(k: int) -> nat {
    if k >= 0 {
        1
    } else {
        pow10((-k) as nat)
    }
}

/// `10^lo <= num / den < 10^hi`.
pub open spec fn between_powers_of_ten(lo: int, hi: int, num: nat, den: nat) -> bool {
    pow10_num(lo) * den <= num * pow10_den(lo) && num * pow10_den(hi) < pow10_num(hi) * den
}

/// `10^k <= num / den < 10^(k + 1)`: `k` is the decimal exponent of `num / den`, the
/// floor of its base-ten logarithm.
pub open spec fn decimal_exponent_of(k: int, num: nat, den: nat) -> bool {
    between_powers_of_ten(k, k + 1, num, den)
}

/// The largest `t` with `2^t < 10^k`, over the decimal exponents of finite floats.
pub open spec fn pow2_below(k: int) -> int {
    (k * 217706 - 116) / 65536
}

/// The largest `u` with `3/4 * 2^u < 10^k`, over the decimal exponents of finite floats.
spec fn pow2_below_irregular(k: int) -> int {
    (k * 217705 + 26970) / 65536
}

/// For `k = -m < 0`, with `t = -a` and `u = -b`: `2^t < 10^k <= 2^(t + 1)` and
/// `3/4 * 2^u < 10^k <= 3/4 * 2^(u + 1)`, cleared of fractions.
spec fn brackets_neg(m: int, a: int, b: int) -> bool {
    &&& pow10(m as nat) < pow2(a as nat)
    &&& pow2((a - 1) as nat) <= pow10(m as nat)
    &&& 3 * pow10(m as nat) < 4 * pow2(b as nat)
    &&& 4 * pow2((b - 1) as nat) <= 3 * pow10(m as nat)
}

/// For `k > 0`: `2^t < 10^k <= 2^(t + 1)` and `3/4 * 2^u < 10^k <= 3/4 * 2^(u + 1)`,
/// cleared of fractions.
spec fn brackets_pos(k: int, t: int, u: int) -> bool {
    &&& pow2(t as nat) < pow10(k as nat)
    &&& pow10(k as nat) <= pow2((t + 1) as nat)
    &&& 3 * pow2(u as nat) < 4 * pow10(k as nat)
    &&& 4 * pow10(k as nat) <= 3 * pow2((u + 1) as nat)
}

/// `2^(64 * i + b)` in terms of `2^b`, for the blocks the case lemmas below read.
proof fn lemma_pow2_block(i: nat, b: nat)
    requires
        1 <= i <= 16,
    ensures
        i == 1 ==> pow2(64 + b) == 18446744073709551616 * pow2(b),
        i == 2 ==> pow2(128 + b) == 340282366920938463463374607431768211456 * pow2(b),
        i == 3 ==> pow2(192 + b) == 6277101735386680763835789423207666416102355444464034512896 * pow2(b),
        i == 4 ==> pow2(256 + b) == 115792089237316195423570985008687907853269984665640564039457584007913129639936 * pow2(b),
        i == 5 ==> pow2(320 + b) == 2135987035920910082395021706169552114602704522356652769947041607822219725780640550022962086936576 * pow2(b),
        i == 6 ==> pow2(384 + b) == 39402006196394479212279040100143613805079739270465446667948293404245721771497210611414266254884915640806627990306816 * pow2(b),
        i == 7 ==> pow2(448 + b) == 726838724295606890549323807888004534353641360687318060281490199180639288113397923326191050713763565560762521606266177933534601628614656 * pow2(b),
        i == 8 ==> pow2(512 + b) == 13407807929942597099574024998205846127479365820592393377723561443721764030073546976801874298166903427690031858186486050853753882811946569946433649006084096 * pow2(b),
        i == 9 ==> pow2(576 + b) == 247330401473104534060502521019647190035131349101211839914063056092897225106531867170316401061243044989597671426016139339351365034306751209967546155101893167916606772148699136 * pow2(b),
        i == 10 ==> pow2(640 + b) == 4562440617622195218641171605700291324893228507248559930579192517899275167208677386505912811317371399778642309573594407310688704721375437998252661319722214188251994674360264950082874192246603776 * pow2(b),
        i == 11 ==> pow2(704 + b) == 84162174424773976115855838126082058648805436845170781751972494449099714468753293153818664580441415219631727501698851483408310916002940861810045036330430093599283578738055113571066620126149163476340692027772502016 * pow2(b),
        i == 12 ==> pow2(768 + b) == 1552518092300708935148979488462502555256886017116696611139052038026050952686376886330878408828646477950487730697131073206171580044114814391444287275041181139204454976020849905550265285631598444825262999193716468750892846853816057856 * pow2(b),
        i == 13 ==> pow2(832 + b) == 28638903918474961204418783933674838490721739172170652529441449702311064005352904159345284265824628375429359509218999720074396860757073376700445026041564579620512874307979212102266801261478978776245040008231745247475930553606737583615358787106474295296 * pow2(b),
        i == 14 ==> pow2(896 + b) == 528294531135665246352339784916516606518847326036121522127960709026673902556724859474417255887657187894674394993257128678882347559502685537250538978462939576908386683999005084168731517676426441053024232908211188404148028292751561738838396898767036476489538580897737998336 * pow2(b),
        i == 15 ==> pow2(960 + b) == 9745314011399999080353382387875188310876226857595007526867906457212948690766426102465615065882010259225304916231408668183459169865203094046577987296312653419531277699956473029870789655490053648352799593479218378873685597925394874945746363615468965612827738803104277547081828589991914110976 * pow2(b),
        i == 16 ==> pow2(1024 + b) == 179769313486231590772930519078902473361797697894230657273430081157732675805500963132708477322407536021120113879871393357658789768814416622492847430639474124377767893424865485276302219601246094119453082952085005768838150682342462881473913110540827237163350510684586298239947245938479716304835356329624224137216 * pow2(b),
{
    lemma2_to64_rest();
    lemma_pow2_adds(64, 64);
    lemma_pow2_adds(128, 64);
    lemma_pow2_adds(192, 64);
    lemma_pow2_adds(256, 64);
    lemma_pow2_adds(320, 64);
    lemma_pow2_adds(384, 64);
    lemma_pow2_adds(448, 64);
    lemma_pow2_adds(512, 64);
    lemma_pow2_adds(576, 64);
    lemma_pow2_adds(640, 64);
    lemma_pow2_adds(704, 64);
    lemma_pow2_adds(768, 64);
    lemma_pow2_adds(832, 64);
    lemma_pow2_adds(896, 64);
    lemma_pow2_adds(960, 64);
    lemma_pow2_adds(64 * i, b);
}

/// The powers of ten up to `10^63`.
proof fn lemma_pow10_literals()
    ensures
        pow10(0) == 1,
        pow10(1) == 10,
        pow10(2) == 100,
        pow10(3) == 1000,
        pow10(4) == 10000,
        pow10(5) == 100000,
        pow10(6) == 1000000,
        pow10(7) == 10000000,
        pow10(8) == 100000000,
        pow10(9) == 1000000000,
        pow10(10) == 10000000000,
        pow10(11) == 100000000000,
        pow10(12) == 1000000000000,
        pow10(13) == 10000000000000,
        pow10(14) == 100000000000000,
        pow10(15) == 1000000000000000,
        pow10(16) == 10000000000000000,
        pow10(17) == 100000000000000000,
        pow10(18) == 1000000000000000000,
        pow10(19) == 10000000000000000000,
        pow10(20) == 100000000000000000000,
        pow10(21) == 1000000000000000000000,
        pow10(22) == 10000000000000000000000,
        pow10(23) == 100000000000000000000000,
        pow10(24) == 1000000000000000000000000,
        pow10(25) == 10000000000000000000000000,
        pow10(26) == 100000000000000000000000000,
        pow10(27) == 1000000000000000000000000000,
        pow10(28) == 10000000000000000000000000000,
        pow10(29) == 100000000000000000000000000000,
        pow10(30) == 1000000000000000000000000000000,
        pow10(31) == 10000000000000000000000000000000,
        pow10(32) == 100000000000000000000000000000000,
        pow10(33) == 1000000000000000000000000000000000,
        pow10(34) == 10000000000000000000000000000000000,
        pow10(35) == 100000000000000000000000000000000000,
        pow10(36) == 1000000000000000000000000000000000000,
        pow10(37) == 10000000000000000000000000000000000000,
        pow10(38) == 100000000000000000000000000000000000000,
        pow10(39) == 1000000000000000000000000000000000000000,
        pow10(40) == 10000000000000000000000000000000000000000,
        pow10(41) == 100000000000000000000000000000000000000000,
        pow10(42) == 1000000000000000000000000000000000000000000,
        pow10(43) == 10000000000000000000000000000000000000000000,
        pow10(44) == 100000000000000000000000000000000000000000000,
        pow10(45) == 1000000000000000000000000000000000000000000000,
        pow10(46) == 10000000000000000000000000000000000000000000000,
        pow10(47) == 100000000000000000000000000000000000000000000000,
        pow10(48) == 1000000000000000000000000000000000000000000000000,
        pow10(49) == 10000000000000000000000000000000000000000000000000,
        pow10(50) == 100000000000000000000000000000000000000000000000000,
        pow10(51) == 1000000000000000000000000000000000000000000000000000,
        pow10(52) == 10000000000000000000000000000000000000000000000000000,
        pow10(53) == 100000000000000000000000000000000000000000000000000000,
        pow10(54) == 1000000000000000000000000000000000000000000000000000000,
        pow10(55) == 10000000000000000000000000000000000000000000000000000000,
        pow10(56) == 100000000000000000000000000000000000000000000000000000000,
        pow10(57) == 1000000000000000000000000000000000000000000000000000000000,
        pow10(58) == 10000000000000000000000000000000000000000000000000000000000,
        pow10(59) == 100000000000000000000000000000000000000000000000000000000000,
        pow10(60) == 1000000000000000000000000000000000000000000000000000000000000,
        pow10(61) == 10000000000000000000000000000000000000000000000000000000000000,
        pow10(62) == 100000000000000000000000000000000000000000000000000000000000000,
        pow10(63) == 1000000000000000000000000000000000000000000000000000000000000000,
{
    assert(pow10(0) == 1);
    assert(pow10(1) == 10);
    assert(pow10(2) == 100);
    assert(pow10(3) == 1000);
    assert(pow10(4) == 10000);
    assert(pow10(5) == 100000);
    assert(pow10(6) == 1000000);
    assert(pow10(7) == 10000000);
    assert(pow10(8) == 100000000);
    assert(pow10(9) == 1000000000);
    assert(pow10(10) == 10000000000);
    assert(pow10(11) == 100000000000);
    assert(pow10(12) == 1000000000000);
    assert(pow10(13) == 10000000000000);
    assert(pow10(14) == 100000000000000);
    assert(pow10(15) == 1000000000000000);
    assert(pow10(16) == 10000000000000000);
    assert(pow10(17) == 100000000000000000);
    assert(pow10(18) == 1000000000000000000);
    assert(pow10(19) == 10000000000000000000);
    assert(pow10(20) == 100000000000000000000);
    assert(pow10(21) == 1000000000000000000000);
    assert(pow10(22) == 10000000000000000000000);
    assert(pow10(23) == 100000000000000000000000);
    assert(pow10(24) == 1000000000000000000000000);
    assert(pow10(25) == 10000000000000000000000000);
    assert(pow10(26) == 100000000000000000000000000);
    assert(pow10(27) == 1000000000000000000000000000);
    assert(pow10(28) == 10000000000000000000000000000);
    assert(pow10(29) == 100000000000000000000000000000);
    assert(pow10(30) == 1000000000000000000000000000000);
    assert(pow10(31) == 10000000000000000000000000000000);
    assert(pow10(32) == 100000000000000000000000000000000);
    assert(pow10(33) == 1000000000000000000000000000000000);
    assert(pow10(34) == 10000000000000000000000000000000000);
    assert(pow10(35) == 100000000000000000000000000000000000);
    assert(pow10(36) == 1000000000000000000000000000000000000);
    assert(pow10(37) == 10000000000000000000000000000000000000);
    assert(pow10(38) == 100000000000000000000000000000000000000);
    assert(pow10(39) == 1000000000000000000000000000000000000000);
    assert(pow10(40) == 10000000000000000000000000000000000000000);
    assert(pow10(41) == 100000000000000000000000000000000000000000);
    assert(pow10(42) == 1000000000000000000000000000000000000000000);
    assert(pow10(43) == 10000000000000000000000000000000000000000000);
    assert(pow10(44) == 100000000000000000000000000000000000000000000);
    assert(pow10(45) == 1000000000000000000000000000000000000000000000);
    assert(pow10(46) == 10000000000000000000000000000000000000000000000);
    assert(pow10(47) == 100000000000000000000000000000000000000000000000);
    assert(pow10(48) == 1000000000000000000000000000000000000000000000000);
    assert(pow10(49) == 10000000000000000000000000000000000000000000000000);
    assert(pow10(50) == 100000000000000000000000000000000000000000000000000);
    assert(pow10(51) == 1000000000000000000000000000000000000000000000000000);
    assert(pow10(52) == 10000000000000000000000000000000000000000000000000000);
    assert(pow10(53) == 100000000000000000000000000000000000000000000000000000);
    assert(pow10(54) == 1000000000000000000000000000000000000000000000000000000);
    assert(pow10(55) == 10000000000000000000000000000000000000000000000000000000);
    assert(pow10(56) == 100000000000000000000000000000000000000000000000000000000);
    assert(pow10(57) == 1000000000000000000000000000000000000000000000000000000000);
    assert(pow10(58) == 10000000000000000000000000000000000000000000000000000000000);
    assert(pow10(59) == 100000000000000000000000000000000000000000000000000000000000);
    assert(pow10(60) == 1000000000000000000000000000000000000000000000000000000000000);
    assert(pow10(61) == 10000000000000000000000000000000000000000000000000000000000000);
    assert(pow10(62) == 100000000000000000000000000000000000000000000000000000000000000);
    assert(pow10(63) == 1000000000000000000000000000000000000000000000000000000000000000);
}

/// `10^(64 * c + d)` in terms of `10^d`, for the blocks the case lemmas below read.
proof fn lemma_pow10_block(c: nat, d: nat)
    requires
        1 <= c <= 5,
    ensures
        c == 1 ==> pow10(64 + d) == 10000000000000000000000000000000000000000000000000000000000000000 * pow10(d),
        c == 2 ==> pow10(128 + d) == 100000000000000000000000000000000000000000000000000000000000000000000000000000000000000000000000000000000000000000000000000000000 * pow10(d),
        c == 3 ==> pow10(192 + d) == 1000000000000000000000000000000000000000000000000000000000000000000000000000000000000000000000000000000000000000000000000000000000000000000000000000000000000000000000000000000000000000000000000 * pow10(d),
        c == 4 ==> pow10(256 + d) == 10000000000000000000000000000000000000000000000000000000000000000000000000000000000000000000000000000000000000000000000000000000000000000000000000000000000000000000000000000000000000000000000000000000000000000000000000000000000000000000000000000000000000000 * pow10(d),
        c == 5 ==> pow10(320 + d) == 100000000000000000000000000000000000000000000000000000000000000000000000000000000000000000000000000000000000000000000000000000000000000000000000000000000000000000000000000000000000000000000000000000000000000000000000000000000000000000000000000000000000000000000000000000000000000000000000000000000000000000000000000000000 * pow10(d),
{
    lemma_pow10_literals();
    assert(pow10(64) == 10 * pow10(63));
    lemma_pow10_add(64, 64);
    lemma_pow10_add(128, 64);
    lemma_pow10_add(192, 64);
    lemma_pow10_add(256, 64);
    lemma_pow10_add(64 * c, d);
}

/// The brackets of `10^k` for `-324 <= k < -292`, case by case.
proof fn lemma_brackets_m324(k: int)
    requires
        -324 <= k < -292,
    ensures
        brackets_neg(-k, -pow2_below(k), -pow2_below_irregular(k)),
{
    lemma2_to64();
    lemma2_to64_rest();
    lemma_pow10_literals();
    if k == -324 {
        lemma_pow2_block(16, 51);
        lemma_pow2_block(16, 52);
        lemma_pow2_block(16, 53);
        lemma_pow10_block(5, 4);
    } else if k == -323 {
        lemma_pow2_block(16, 48);
        lemma_pow2_block(16, 49);
        lemma_pow10_block(5, 3);
    } else if k == -322 {
        lemma_pow2_block(16, 45);
        lemma_pow2_block(16, 46);
        lemma_pow10_block(5, 2);
    } else if k == -321 {
        lemma_pow2_block(16, 41);
        lemma_pow2_block(16, 42);
        lemma_pow2_block(16, 43);
        lemma_pow10_block(5, 1);
    } else if k == -320 {
        lemma_pow2_block(16, 38);
        lemma_pow2_block(16, 39);
        lemma_pow2_block(16, 40);
        lemma_pow10_block(5, 0);
    } else if k == -319 {
        lemma_pow2_block(16, 35);
        lemma_pow2_block(16, 36);
        lemma_pow10_block(4, 63);
    } else if k == -318 {
        lemma_pow2_block(16, 31);
        lemma_pow2_block(16, 32);
        lemma_pow2_block(16, 33);
        lemma_pow10_block(4, 62);
    } else if k == -317 {
        lemma_pow2_block(16, 28);
        lemma_pow2_block(16, 29);
        lemma_pow2_block(16, 30);
        lemma_pow10_block(4, 61);
    } else if k == -316 {
        lemma_pow2_block(16, 25);
        lemma_pow2_block(16, 26);
        lemma_pow10_block(4, 60);
    } else if k == -315 {
        lemma_pow2_block(16, 21);
        lemma_pow2_block(16, 22);
        lemma_pow2_block(16, 23);
        lemma_pow10_block(4, 59);
    } else if k == -314 {
        lemma_pow2_block(16, 18);
        lemma_pow2_block(16, 19);
        lemma_pow2_block(16, 20);
        lemma_pow10_block(4, 58);
    } else if k == -313 {
        lemma_pow2_block(16, 15);
        lemma_pow2_block(16, 16);
        lemma_pow10_block(4, 57);
    } else if k == -312 {
        lemma_pow2_block(16, 12);
        lemma_pow2_block(16, 13);
        lemma_pow10_block(4, 56);
    } else if k == -311 {
        lemma_pow2_block(16, 8);
        lemma_pow2_block(16, 9);
        lemma_pow2_block(16, 10);
        lemma_pow10_block(4, 55);
    } else if k == -310 {
        lemma_pow2_block(16, 5);
        lemma_pow2_block(16, 6);
        lemma_pow10_block(4, 54);
    } else if k == -309 {
        lemma_pow2_block(16, 2);
        lemma_pow2_block(16, 3);
        lemma_pow10_block(4, 53);
    } else if k == -308 {
        lemma_pow2_block(15, 62);
        lemma_pow2_block(15, 63);
        lemma_pow2_block(16, 0);
        lemma_pow10_block(4, 52);
    } else if k == -307 {
        lemma_pow2_block(15, 59);
        lemma_pow2_block(15, 60);
        lemma_pow10_block(4, 51);
    } else if k == -306 {
        lemma_pow2_block(15, 56);
        lemma_pow2_block(15, 57);
        lemma_pow10_block(4, 50);
    } else if k == -305 {
        lemma_pow2_block(15, 52);
        lemma_pow2_block(15, 53);
        lemma_pow2_block(15, 54);
        lemma_pow10_block(4, 49);
    } else if k == -304 {
        lemma_pow2_block(15, 49);
        lemma_pow2_block(15, 50);
        lemma_pow10_block(4, 48);
    } else if k == -303 {
        lemma_pow2_block(15, 46);
        lemma_pow2_block(15, 47);
        lemma_pow10_block(4, 47);
    } else if k == -302 {
        lemma_pow2_block(15, 42);
        lemma_pow2_block(15, 43);
        lemma_pow2_block(15, 44);
        lemma_pow10_block(4, 46);
    } else if k == -301 {
        lemma_pow2_block(15, 39);
        lemma_pow2_block(15, 40);
        lemma_pow10_block(4, 45);
    } else if k == -300 {
        lemma_pow2_block(15, 36);
        lemma_pow2_block(15, 37);
        lemma_pow10_block(4, 44);
    } else if k == -299 {
        lemma_pow2_block(15, 32);
        lemma_pow2_block(15, 33);
        lemma_pow2_block(15, 34);
        lemma_pow10_block(4, 43);
    } else if k == -298 {
        lemma_pow2_block(15, 29);
        lemma_pow2_block(15, 30);
        lemma_pow10_block(4, 42);
    } else if k == -297 {
        lemma_pow2_block(15, 26);
        lemma_pow2_block(15, 27);
        lemma_pow10_block(4, 41);
    } else if k == -296 {
        lemma_pow2_block(15, 22);
        lemma_pow2_block(15, 23);
        lemma_pow2_block(15, 24);
        lemma_pow10_block(4, 40);
    } else if k == -295 {
        lemma_pow2_block(15, 19);
        lemma_pow2_block(15, 20);
        lemma_pow10_block(4, 39);
    } else if k == -294 {
        lemma_pow2_block(15, 16);
        lemma_pow2_block(15, 17);
        lemma_pow10_block(4, 38);
    } else {
        lemma_pow2_block(15, 12);
        lemma_pow2_block(15, 13);
        lemma_pow2_block(15, 14);
        lemma_pow10_block(4, 37);
    }
}

/// The brackets of `10^k` for `-292 <= k < -260`, case by case.
proof fn lemma_brackets_m292(k: int)
    requires
        -292 <= k < -260,
    ensures
        brackets_neg(-k, -pow2_below(k), -pow2_below_irregular(k)),
{
    lemma2_to64();
    lemma2_to64_rest();
    lemma_pow10_literals();
    if k == -292 {
        lemma_pow2_block(15, 9);
        lemma_pow2_block(15, 10);
        lemma_pow2_block(15, 11);
        lemma_pow10_block(4, 36);
    } else if k == -291 {
        lemma_pow2_block(15, 6);
        lemma_pow2_block(15, 7);
        lemma_pow10_block(4, 35);
    } else if k == -290 {
        lemma_pow2_block(15, 2);
        lemma_pow2_block(15, 3);
        lemma_pow2_block(15, 4);
        lemma_pow10_block(4, 34);
    } else if k == -289 {
        lemma_pow2_block(14, 63);
        lemma_pow2_block(15, 0);
        lemma_pow2_block(15, 1);
        lemma_pow10_block(4, 33);
    } else if k == -288 {
        lemma_pow2_block(14, 60);
        lemma_pow2_block(14, 61);
        lemma_pow10_block(4, 32);
    } else if k == -287 {
        lemma_pow2_block(14, 56);
        lemma_pow2_block(14, 57);
        lemma_pow2_block(14, 58);
        lemma_pow10_block(4, 31);
    } else if k == -286 {
        lemma_pow2_block(14, 53);
        lemma_pow2_block(14, 54);
        lemma_pow2_block(14, 55);
        lemma_pow10_block(4, 30);
    } else if k == -285 {
        lemma_pow2_block(14, 50);
        lemma_pow2_block(14, 51);
        lemma_pow10_block(4, 29);
    } else if k == -284 {
        lemma_pow2_block(14, 47);
        lemma_pow2_block(14, 48);
        lemma_pow10_block(4, 28);
    } else if k == -283 {
        lemma_pow2_block(14, 43);
        lemma_pow2_block(14, 44);
        lemma_pow2_block(14, 45);
        lemma_pow10_block(4, 27);
    } else if k == -282 {
        lemma_pow2_block(14, 40);
        lemma_pow2_block(14, 41);
        lemma_pow10_block(4, 26);
    } else if k == -281 {
        lemma_pow2_block(14, 37);
        lemma_pow2_block(14, 38);
        lemma_pow10_block(4, 25);
    } else if k == -280 {
        lemma_pow2_block(14, 33);
        lemma_pow2_block(14, 34);
        lemma_pow2_block(14, 35);
        lemma_pow10_block(4, 24);
    } else if k == -279 {
        lemma_pow2_block(14, 30);
        lemma_pow2_block(14, 31);
        lemma_pow10_block(4, 23);
    } else if k == -278 {
        lemma_pow2_block(14, 27);
        lemma_pow2_block(14, 28);
        lemma_pow10_block(4, 22);
    } else if k == -277 {
        lemma_pow2_block(14, 23);
        lemma_pow2_block(14, 24);
        lemma_pow2_block(14, 25);
        lemma_pow10_block(4, 21);
    } else if k == -276 {
        lemma_pow2_block(14, 20);
        lemma_pow2_block(14, 21);
        lemma_pow10_block(4, 20);
    } else if k == -275 {
        lemma_pow2_block(14, 17);
        lemma_pow2_block(14, 18);
        lemma_pow10_block(4, 19);
    } else if k == -274 {
        lemma_pow2_block(14, 13);
        lemma_pow2_block(14, 14);
        lemma_pow2_block(14, 15);
        lemma_pow10_block(4, 18);
    } else if k == -273 {
        lemma_pow2_block(14, 10);
        lemma_pow2_block(14, 11);
        lemma_pow10_block(4, 17);
    } else if k == -272 {
        lemma_pow2_block(14, 7);
        lemma_pow2_block(14, 8);
        lemma_pow10_block(4, 16);
    } else if k == -271 {
        lemma_pow2_block(14, 3);
        lemma_pow2_block(14, 4);
        lemma_pow2_block(14, 5);
        lemma_pow10_block(4, 15);
    } else if k == -270 {
        lemma_pow2_block(14, 0);
        lemma_pow2_block(14, 1);
        lemma_pow10_block(4, 14);
    } else if k == -269 {
        lemma_pow2_block(13, 61);
        lemma_pow2_block(13, 62);
        lemma_pow10_block(4, 13);
    } else if k == -268 {
        lemma_pow2_block(13, 57);
        lemma_pow2_block(13, 58);
        lemma_pow2_block(13, 59);
        lemma_pow10_block(4, 12);
    } else if k == -267 {
        lemma_pow2_block(13, 54);
        lemma_pow2_block(13, 55);
        lemma_pow10_block(4, 11);
    } else if k == -266 {
        lemma_pow2_block(13, 51);
        lemma_pow2_block(13, 52);
        lemma_pow10_block(4, 10);
    } else if k == -265 {
        lemma_pow2_block(13, 47);
        lemma_pow2_block(13, 48);
        lemma_pow2_block(13, 49);
        lemma_pow10_block(4, 9);
    } else if k == -264 {
        lemma_pow2_block(13, 44);
        lemma_pow2_block(13, 45);
        lemma_pow10_block(4, 8);
    } else if k == -263 {
        lemma_pow2_block(13, 41);
        lemma_pow2_block(13, 42);
        lemma_pow10_block(4, 7);
    } else if k == -262 {
        lemma_pow2_block(13, 37);
        lemma_pow2_block(13, 38);
        lemma_pow2_block(13, 39);
        lemma_pow10_block(4, 6);
    } else {
        lemma_pow2_block(13, 34);
        lemma_pow2_block(13, 35);
        lemma_pow2_block(13, 36);
        lemma_pow10_block(4, 5);
    }
}

/// The brackets of `10^k` for `-260 <= k < -228`, case by case.
proof fn lemma_brackets_m260(k: int)
    requires
        -260 <= k < -228,
    ensures
        brackets_neg(-k, -pow2_below(k), -pow2_below_irregular(k)),
{
    lemma2_to64();
    lemma2_to64_rest();
    lemma_pow10_literals();
    if k == -260 {
        lemma_pow2_block(13, 31);
        lemma_pow2_block(13, 32);
        lemma_pow10_block(4, 4);
    } else if k == -259 {
        lemma_pow2_block(13, 27);
        lemma_pow2_block(13, 28);
        lemma_pow2_block(13, 29);
        lemma_pow10_block(4, 3);
    } else if k == -258 {
        lemma_pow2_block(13, 24);
        lemma_pow2_block(13, 25);
        lemma_pow2_block(13, 26);
        lemma_pow10_block(4, 2);
    } else if k == -257 {
        lemma_pow2_block(13, 21);
        lemma_pow2_block(13, 22);
        lemma_pow10_block(4, 1);
    } else if k == -256 {
        lemma_pow2_block(13, 17);
        lemma_pow2_block(13, 18);
        lemma_pow2_block(13, 19);
        lemma_pow10_block(4, 0);
    } else if k == -255 {
        lemma_pow2_block(13, 14);
        lemma_pow2_block(13, 15);
        lemma_pow2_block(13, 16);
        lemma_pow10_block(3, 63);
    } else if k == -254 {
        lemma_pow2_block(13, 11);
        lemma_pow2_block(13, 12);
        lemma_pow10_block(3, 62);
    } else if k == -253 {
        lemma_pow2_block(13, 8);
        lemma_pow2_block(13, 9);
        lemma_pow10_block(3, 61);
    } else if k == -252 {
        lemma_pow2_block(13, 4);
        lemma_pow2_block(13, 5);
        lemma_pow2_block(13, 6);
        lemma_pow10_block(3, 60);
    } else if k == -251 {
        lemma_pow2_block(13, 1);
        lemma_pow2_block(13, 2);
        lemma_pow10_block(3, 59);
    } else if k == -250 {
        lemma_pow2_block(12, 62);
        lemma_pow2_block(12, 63);
        lemma_pow10_block(3, 58);
    } else if k == -249 {
        lemma_pow2_block(12, 58);
        lemma_pow2_block(12, 59);
        lemma_pow2_block(12, 60);
        lemma_pow10_block(3, 57);
    } else if k == -248 {
        lemma_pow2_block(12, 55);
        lemma_pow2_block(12, 56);
        lemma_pow10_block(3, 56);
    } else if k == -247 {
        lemma_pow2_block(12, 52);
        lemma_pow2_block(12, 53);
        lemma_pow10_block(3, 55);
    } else if k == -246 {
        lemma_pow2_block(12, 48);
        lemma_pow2_block(12, 49);
        lemma_pow2_block(12, 50);
        lemma_pow10_block(3, 54);
    } else if k == -245 {
        lemma_pow2_block(12, 45);
        lemma_pow2_block(12, 46);
        lemma_pow10_block(3, 53);
    } else if k == -244 {
        lemma_pow2_block(12, 42);
        lemma_pow2_block(12, 43);
        lemma_pow10_block(3, 52);
    } else if k == -243 {
        lemma_pow2_block(12, 38);
        lemma_pow2_block(12, 39);
        lemma_pow2_block(12, 40);
        lemma_pow10_block(3, 51);
    } else if k == -242 {
        lemma_pow2_block(12, 35);
        lemma_pow2_block(12, 36);
        lemma_pow10_block(3, 50);
    } else if k == -241 {
        lemma_pow2_block(12, 32);
        lemma_pow2_block(12, 33);
        lemma_pow10_block(3, 49);
    } else if k == -240 {
        lemma_pow2_block(12, 28);
        lemma_pow2_block(12, 29);
        lemma_pow2_block(12, 30);
        lemma_pow10_block(3, 48);
    } else if k == -239 {
        lemma_pow2_block(12, 25);
        lemma_pow2_block(12, 26);
        lemma_pow10_block(3, 47);
    } else if k == -238 {
        lemma_pow2_block(12, 22);
        lemma_pow2_block(12, 23);
        lemma_pow10_block(3, 46);
    } else if k == -237 {
        lemma_pow2_block(12, 18);
        lemma_pow2_block(12, 19);
        lemma_pow2_block(12, 20);
        lemma_pow10_block(3, 45);
    } else if k == -236 {
        lemma_pow2_block(12, 15);
        lemma_pow2_block(12, 16);
        lemma_pow10_block(3, 44);
    } else if k == -235 {
        lemma_pow2_block(12, 12);
        lemma_pow2_block(12, 13);
        lemma_pow10_block(3, 43);
    } else if k == -234 {
        lemma_pow2_block(12, 8);
        lemma_pow2_block(12, 9);
        lemma_pow2_block(12, 10);
        lemma_pow10_block(3, 42);
    } else if k == -233 {
        lemma_pow2_block(12, 5);
        lemma_pow2_block(12, 6);
        lemma_pow2_block(12, 7);
        lemma_pow10_block(3, 41);
    } else if k == -232 {
        lemma_pow2_block(12, 2);
        lemma_pow2_block(12, 3);
        lemma_pow10_block(3, 40);
    } else if k == -231 {
        lemma_pow2_block(11, 62);
        lemma_pow2_block(11, 63);
        lemma_pow2_block(12, 0);
        lemma_pow10_block(3, 39);
    } else if k == -230 {
        lemma_pow2_block(11, 59);
        lemma_pow2_block(11, 60);
        lemma_pow2_block(11, 61);
        lemma_pow10_block(3, 38);
    } else {
        lemma_pow2_block(11, 56);
        lemma_pow2_block(11, 57);
        lemma_pow10_block(3, 37);
    }
}

/// The brackets of `10^k` for `-228 <= k < -196`, case by case.
proof fn lemma_brackets_m228(k: int)
    requires
        -228 <= k < -196,
    ensures
        brackets_neg(-k, -pow2_below(k), -pow2_below_irregular(k)),
{
    lemma2_to64();
    lemma2_to64_rest();
    lemma_pow10_literals();
    if k == -228 {
        lemma_pow2_block(11, 52);
        lemma_pow2_block(11, 53);
        lemma_pow2_block(11, 54);
        lemma_pow10_block(3, 36);
    } else if k == -227 {
        lemma_pow2_block(11, 49);
        lemma_pow2_block(11, 50);
        lemma_pow2_block(11, 51);
        lemma_pow10_block(3, 35);
    } else if k == -226 {
        lemma_pow2_block(11, 46);
        lemma_pow2_block(11, 47);
        lemma_pow10_block(3, 34);
    } else if k == -225 {
        lemma_pow2_block(11, 43);
        lemma_pow2_block(11, 44);
        lemma_pow10_block(3, 33);
    } else if k == -224 {
        lemma_pow2_block(11, 39);
        lemma_pow2_block(11, 40);
        lemma_pow2_block(11, 41);
        lemma_pow10_block(3, 32);
    } else if k == -223 {
        lemma_pow2_block(11, 36);
        lemma_pow2_block(11, 37);
        lemma_pow10_block(3, 31);
    } else if k == -222 {
        lemma_pow2_block(11, 33);
        lemma_pow2_block(11, 34);
        lemma_pow10_block(3, 30);
    } else if k == -221 {
        lemma_pow2_block(11, 29);
        lemma_pow2_block(11, 30);
        lemma_pow2_block(11, 31);
        lemma_pow10_block(3, 29);
    } else if k == -220 {
        lemma_pow2_block(11, 26);
        lemma_pow2_block(11, 27);
        lemma_pow10_block(3, 28);
    } else if k == -219 {
        lemma_pow2_block(11, 23);
        lemma_pow2_block(11, 24);
        lemma_pow10_block(3, 27);
    } else if k == -218 {
        lemma_pow2_block(11, 19);
        lemma_pow2_block(11, 20);
        lemma_pow2_block(11, 21);
        lemma_pow10_block(3, 26);
    } else if k == -217 {
        lemma_pow2_block(11, 16);
        lemma_pow2_block(11, 17);
        lemma_pow10_block(3, 25);
    } else if k == -216 {
        lemma_pow2_block(11, 13);
        lemma_pow2_block(11, 14);
        lemma_pow10_block(3, 24);
    } else if k == -215 {
        lemma_pow2_block(11, 9);
        lemma_pow2_block(11, 10);
        lemma_pow2_block(11, 11);
        lemma_pow10_block(3, 23);
    } else if k == -214 {
        lemma_pow2_block(11, 6);
        lemma_pow2_block(11, 7);
        lemma_pow10_block(3, 22);
    } else if k == -213 {
        lemma_pow2_block(11, 3);
        lemma_pow2_block(11, 4);
        lemma_pow10_block(3, 21);
    } else if k == -212 {
        lemma_pow2_block(10, 63);
        lemma_pow2_block(11, 0);
        lemma_pow2_block(11, 1);
        lemma_pow10_block(3, 20);
    } else if k == -211 {
        lemma_pow2_block(10, 60);
        lemma_pow2_block(10, 61);
        lemma_pow10_block(3, 19);
    } else if k == -210 {
        lemma_pow2_block(10, 57);
        lemma_pow2_block(10, 58);
        lemma_pow10_block(3, 18);
    } else if k == -209 {
        lemma_pow2_block(10, 53);
        lemma_pow2_block(10, 54);
        lemma_pow2_block(10, 55);
        lemma_pow10_block(3, 17);
    } else if k == -208 {
        lemma_pow2_block(10, 50);
        lemma_pow2_block(10, 51);
        lemma_pow10_block(3, 16);
    } else if k == -207 {
        lemma_pow2_block(10, 47);
        lemma_pow2_block(10, 48);
        lemma_pow10_block(3, 15);
    } else if k == -206 {
        lemma_pow2_block(10, 43);
        lemma_pow2_block(10, 44);
        lemma_pow2_block(10, 45);
        lemma_pow10_block(3, 14);
    } else if k == -205 {
        lemma_pow2_block(10, 40);
        lemma_pow2_block(10, 41);
        lemma_pow10_block(3, 13);
    } else if k == -204 {
        lemma_pow2_block(10, 37);
        lemma_pow2_block(10, 38);
        lemma_pow10_block(3, 12);
    } else if k == -203 {
        lemma_pow2_block(10, 33);
        lemma_pow2_block(10, 34);
        lemma_pow2_block(10, 35);
        lemma_pow10_block(3, 11);
    } else if k == -202 {
        lemma_pow2_block(10, 30);
        lemma_pow2_block(10, 31);
        lemma_pow2_block(10, 32);
        lemma_pow10_block(3, 10);
    } else if k == -201 {
        lemma_pow2_block(10, 27);
        lemma_pow2_block(10, 28);
        lemma_pow10_block(3, 9);
    } else if k == -200 {
        lemma_pow2_block(10, 23);
        lemma_pow2_block(10, 24);
        lemma_pow2_block(10, 25);
        lemma_pow10_block(3, 8);
    } else if k == -199 {
        lemma_pow2_block(10, 20);
        lemma_pow2_block(10, 21);
        lemma_pow2_block(10, 22);
        lemma_pow10_block(3, 7);
    } else if k == -198 {
        lemma_pow2_block(10, 17);
        lemma_pow2_block(10, 18);
        lemma_pow10_block(3, 6);
    } else {
        lemma_pow2_block(10, 14);
        lemma_pow2_block(10, 15);
        lemma_pow10_block(3, 5);
    }
}

/// The brackets of `10^k` for `-196 <= k < -164`, case by case.
proof fn lemma_brackets_m196(k: int)
    requires
        -196 <= k < -164,
    ensures
        brackets_neg(-k, -pow2_below(k), -pow2_below_irregular(k)),
{
    lemma2_to64();
    lemma2_to64_rest();
    lemma_pow10_literals();
    if k == -196 {
        lemma_pow2_block(10, 10);
        lemma_pow2_block(10, 11);
        lemma_pow2_block(10, 12);
        lemma_pow10_block(3, 4);
    } else if k == -195 {
        lemma_pow2_block(10, 7);
        lemma_pow2_block(10, 8);
        lemma_pow10_block(3, 3);
    } else if k == -194 {
        lemma_pow2_block(10, 4);
        lemma_pow2_block(10, 5);
        lemma_pow10_block(3, 2);
    } else if k == -193 {
        lemma_pow2_block(10, 0);
        lemma_pow2_block(10, 1);
        lemma_pow2_block(10, 2);
        lemma_pow10_block(3, 1);
    } else if k == -192 {
        lemma_pow2_block(9, 61);
        lemma_pow2_block(9, 62);
        lemma_pow10_block(3, 0);
    } else if k == -191 {
        lemma_pow2_block(9, 58);
        lemma_pow2_block(9, 59);
        lemma_pow10_block(2, 63);
    } else if k == -190 {
        lemma_pow2_block(9, 54);
        lemma_pow2_block(9, 55);
        lemma_pow2_block(9, 56);
        lemma_pow10_block(2, 62);
    } else if k == -189 {
        lemma_pow2_block(9, 51);
        lemma_pow2_block(9, 52);
        lemma_pow10_block(2, 61);
    } else if k == -188 {
        lemma_pow2_block(9, 48);
        lemma_pow2_block(9, 49);
        lemma_pow10_block(2, 60);
    } else if k == -187 {
        lemma_pow2_block(9, 44);
        lemma_pow2_block(9, 45);
        lemma_pow2_block(9, 46);
        lemma_pow10_block(2, 59);
    } else if k == -186 {
        lemma_pow2_block(9, 41);
        lemma_pow2_block(9, 42);
        lemma_pow10_block(2, 58);
    } else if k == -185 {
        lemma_pow2_block(9, 38);
        lemma_pow2_block(9, 39);
        lemma_pow10_block(2, 57);
    } else if k == -184 {
        lemma_pow2_block(9, 34);
        lemma_pow2_block(9, 35);
        lemma_pow2_block(9, 36);
        lemma_pow10_block(2, 56);
    } else if k == -183 {
        lemma_pow2_block(9, 31);
        lemma_pow2_block(9, 32);
        lemma_pow10_block(2, 55);
    } else if k == -182 {
        lemma_pow2_block(9, 28);
        lemma_pow2_block(9, 29);
        lemma_pow10_block(2, 54);
    } else if k == -181 {
        lemma_pow2_block(9, 24);
        lemma_pow2_block(9, 25);
        lemma_pow2_block(9, 26);
        lemma_pow10_block(2, 53);
    } else if k == -180 {
        lemma_pow2_block(9, 21);
        lemma_pow2_block(9, 22);
        lemma_pow10_block(2, 52);
    } else if k == -179 {
        lemma_pow2_block(9, 18);
        lemma_pow2_block(9, 19);
        lemma_pow10_block(2, 51);
    } else if k == -178 {
        lemma_pow2_block(9, 14);
        lemma_pow2_block(9, 15);
        lemma_pow2_block(9, 16);
        lemma_pow10_block(2, 50);
    } else if k == -177 {
        lemma_pow2_block(9, 11);
        lemma_pow2_block(9, 12);
        lemma_pow10_block(2, 49);
    } else if k == -176 {
        lemma_pow2_block(9, 8);
        lemma_pow2_block(9, 9);
        lemma_pow10_block(2, 48);
    } else if k == -175 {
        lemma_pow2_block(9, 4);
        lemma_pow2_block(9, 5);
        lemma_pow2_block(9, 6);
        lemma_pow10_block(2, 47);
    } else if k == -174 {
        lemma_pow2_block(9, 1);
        lemma_pow2_block(9, 2);
        lemma_pow2_block(9, 3);
        lemma_pow10_block(2, 46);
    } else if k == -173 {
        lemma_pow2_block(8, 62);
        lemma_pow2_block(8, 63);
        lemma_pow10_block(2, 45);
    } else if k == -172 {
        lemma_pow2_block(8, 58);
        lemma_pow2_block(8, 59);
        lemma_pow2_block(8, 60);
        lemma_pow10_block(2, 44);
    } else if k == -171 {
        lemma_pow2_block(8, 55);
        lemma_pow2_block(8, 56);
        lemma_pow2_block(8, 57);
        lemma_pow10_block(2, 43);
    } else if k == -170 {
        lemma_pow2_block(8, 52);
        lemma_pow2_block(8, 53);
        lemma_pow10_block(2, 42);
    } else if k == -169 {
        lemma_pow2_block(8, 48);
        lemma_pow2_block(8, 49);
        lemma_pow2_block(8, 50);
        lemma_pow10_block(2, 41);
    } else if k == -168 {
        lemma_pow2_block(8, 45);
        lemma_pow2_block(8, 46);
        lemma_pow2_block(8, 47);
        lemma_pow10_block(2, 40);
    } else if k == -167 {
        lemma_pow2_block(8, 42);
        lemma_pow2_block(8, 43);
        lemma_pow10_block(2, 39);
    } else if k == -166 {
        lemma_pow2_block(8, 39);
        lemma_pow2_block(8, 40);
        lemma_pow10_block(2, 38);
    } else {
        lemma_pow2_block(8, 35);
        lemma_pow2_block(8, 36);
        lemma_pow2_block(8, 37);
        lemma_pow10_block(2, 37);
    }
}

/// The brackets of `10^k` for `-164 <= k < -132`, case by case.
proof fn lemma_brackets_m164(k: int)
    requires
        -164 <= k < -132,
    ensures
        brackets_neg(-k, -pow2_below(k), -pow2_below_irregular(k)),
{
    lemma2_to64();
    lemma2_to64_rest();
    lemma_pow10_literals();
    if k == -164 {
        lemma_pow2_block(8, 32);
        lemma_pow2_block(8, 33);
        lemma_pow10_block(2, 36);
    } else if k == -163 {
        lemma_pow2_block(8, 29);
        lemma_pow2_block(8, 30);
        lemma_pow10_block(2, 35);
    } else if k == -162 {
        lemma_pow2_block(8, 25);
        lemma_pow2_block(8, 26);
        lemma_pow2_block(8, 27);
        lemma_pow10_block(2, 34);
    } else if k == -161 {
        lemma_pow2_block(8, 22);
        lemma_pow2_block(8, 23);
        lemma_pow10_block(2, 33);
    } else if k == -160 {
        lemma_pow2_block(8, 19);
        lemma_pow2_block(8, 20);
        lemma_pow10_block(2, 32);
    } else if k == -159 {
        lemma_pow2_block(8, 15);
        lemma_pow2_block(8, 16);
        lemma_pow2_block(8, 17);
        lemma_pow10_block(2, 31);
    } else if k == -158 {
        lemma_pow2_block(8, 12);
        lemma_pow2_block(8, 13);
        lemma_pow10_block(2, 30);
    } else if k == -157 {
        lemma_pow2_block(8, 9);
        lemma_pow2_block(8, 10);
        lemma_pow10_block(2, 29);
    } else if k == -156 {
        lemma_pow2_block(8, 5);
        lemma_pow2_block(8, 6);
        lemma_pow2_block(8, 7);
        lemma_pow10_block(2, 28);
    } else if k == -155 {
        lemma_pow2_block(8, 2);
        lemma_pow2_block(8, 3);
        lemma_pow10_block(2, 27);
    } else if k == -154 {
        lemma_pow2_block(7, 63);
        lemma_pow2_block(8, 0);
        lemma_pow10_block(2, 26);
    } else if k == -153 {
        lemma_pow2_block(7, 59);
        lemma_pow2_block(7, 60);
        lemma_pow2_block(7, 61);
        lemma_pow10_block(2, 25);
    } else if k == -152 {
        lemma_pow2_block(7, 56);
        lemma_pow2_block(7, 57);
        lemma_pow10_block(2, 24);
    } else if k == -151 {
        lemma_pow2_block(7, 53);
        lemma_pow2_block(7, 54);
        lemma_pow10_block(2, 23);
    } else if k == -150 {
        lemma_pow2_block(7, 49);
        lemma_pow2_block(7, 50);
        lemma_pow2_block(7, 51);
        lemma_pow10_block(2, 22);
    } else if k == -149 {
        lemma_pow2_block(7, 46);
        lemma_pow2_block(7, 47);
        lemma_pow10_block(2, 21);
    } else if k == -148 {
        lemma_pow2_block(7, 43);
        lemma_pow2_block(7, 44);
        lemma_pow10_block(2, 20);
    } else if k == -147 {
        lemma_pow2_block(7, 39);
        lemma_pow2_block(7, 40);
        lemma_pow2_block(7, 41);
        lemma_pow10_block(2, 19);
    } else if k == -146 {
        lemma_pow2_block(7, 36);
        lemma_pow2_block(7, 37);
        lemma_pow2_block(7, 38);
        lemma_pow10_block(2, 18);
    } else if k == -145 {
        lemma_pow2_block(7, 33);
        lemma_pow2_block(7, 34);
        lemma_pow10_block(2, 17);
    } else if k == -144 {
        lemma_pow2_block(7, 29);
        lemma_pow2_block(7, 30);
        lemma_pow2_block(7, 31);
        lemma_pow10_block(2, 16);
    } else if k == -143 {
        lemma_pow2_block(7, 26);
        lemma_pow2_block(7, 27);
        lemma_pow2_block(7, 28);
        lemma_pow10_block(2, 15);
    } else if k == -142 {
        lemma_pow2_block(7, 23);
        lemma_pow2_block(7, 24);
        lemma_pow10_block(2, 14);
    } else if k == -141 {
        lemma_pow2_block(7, 19);
        lemma_pow2_block(7, 20);
        lemma_pow2_block(7, 21);
        lemma_pow10_block(2, 13);
    } else if k == -140 {
        lemma_pow2_block(7, 16);
        lemma_pow2_block(7, 17);
        lemma_pow2_block(7, 18);
        lemma_pow10_block(2, 12);
    } else if k == -139 {
        lemma_pow2_block(7, 13);
        lemma_pow2_block(7, 14);
        lemma_pow10_block(2, 11);
    } else if k == -138 {
        lemma_pow2_block(7, 10);
        lemma_pow2_block(7, 11);
        lemma_pow10_block(2, 10);
    } else if k == -137 {
        lemma_pow2_block(7, 6);
        lemma_pow2_block(7, 7);
        lemma_pow2_block(7, 8);
        lemma_pow10_block(2, 9);
    } else if k == -136 {
        lemma_pow2_block(7, 3);
        lemma_pow2_block(7, 4);
        lemma_pow10_block(2, 8);
    } else if k == -135 {
        lemma_pow2_block(7, 0);
        lemma_pow2_block(7, 1);
        lemma_pow10_block(2, 7);
    } else if k == -134 {
        lemma_pow2_block(6, 60);
        lemma_pow2_block(6, 61);
        lemma_pow2_block(6, 62);
        lemma_pow10_block(2, 6);
    } else {
        lemma_pow2_block(6, 57);
        lemma_pow2_block(6, 58);
        lemma_pow10_block(2, 5);
    }
}

/// The brackets of `10^k` for `-132 <= k < -100`, case by case.
proof fn lemma_brackets_m132(k: int)
    requires
        -132 <= k < -100,
    ensures
        brackets_neg(-k, -pow2_below(k), -pow2_below_irregular(k)),
{
    lemma2_to64();
    lemma2_to64_rest();
    lemma_pow10_literals();
    if k == -132 {
        lemma_pow2_block(6, 54);
        lemma_pow2_block(6, 55);
        lemma_pow10_block(2, 4);
    } else if k == -131 {
        lemma_pow2_block(6, 50);
        lemma_pow2_block(6, 51);
        lemma_pow2_block(6, 52);
        lemma_pow10_block(2, 3);
    } else if k == -130 {
        lemma_pow2_block(6, 47);
        lemma_pow2_block(6, 48);
        lemma_pow10_block(2, 2);
    } else if k == -129 {
        lemma_pow2_block(6, 44);
        lemma_pow2_block(6, 45);
        lemma_pow10_block(2, 1);
    } else if k == -128 {
        lemma_pow2_block(6, 40);
        lemma_pow2_block(6, 41);
        lemma_pow2_block(6, 42);
        lemma_pow10_block(2, 0);
    } else if k == -127 {
        lemma_pow2_block(6, 37);
        lemma_pow2_block(6, 38);
        lemma_pow10_block(1, 63);
    } else if k == -126 {
        lemma_pow2_block(6, 34);
        lemma_pow2_block(6, 35);
        lemma_pow10_block(1, 62);
    } else if k == -125 {
        lemma_pow2_block(6, 30);
        lemma_pow2_block(6, 31);
        lemma_pow2_block(6, 32);
        lemma_pow10_block(1, 61);
    } else if k == -124 {
        lemma_pow2_block(6, 27);
        lemma_pow2_block(6, 28);
        lemma_pow10_block(1, 60);
    } else if k == -123 {
        lemma_pow2_block(6, 24);
        lemma_pow2_block(6, 25);
        lemma_pow10_block(1, 59);
    } else if k == -122 {
        lemma_pow2_block(6, 20);
        lemma_pow2_block(6, 21);
        lemma_pow2_block(6, 22);
        lemma_pow10_block(1, 58);
    } else if k == -121 {
        lemma_pow2_block(6, 17);
        lemma_pow2_block(6, 18);
        lemma_pow10_block(1, 57);
    } else if k == -120 {
        lemma_pow2_block(6, 14);
        lemma_pow2_block(6, 15);
        lemma_pow10_block(1, 56);
    } else if k == -119 {
        lemma_pow2_block(6, 10);
        lemma_pow2_block(6, 11);
        lemma_pow2_block(6, 12);
        lemma_pow10_block(1, 55);
    } else if k == -118 {
        lemma_pow2_block(6, 7);
        lemma_pow2_block(6, 8);
        lemma_pow10_block(1, 54);
    } else if k == -117 {
        lemma_pow2_block(6, 4);
        lemma_pow2_block(6, 5);
        lemma_pow10_block(1, 53);
    } else if k == -116 {
        lemma_pow2_block(6, 0);
        lemma_pow2_block(6, 1);
        lemma_pow2_block(6, 2);
        lemma_pow10_block(1, 52);
    } else if k == -115 {
        lemma_pow2_block(5, 61);
        lemma_pow2_block(5, 62);
        lemma_pow2_block(5, 63);
        lemma_pow10_block(1, 51);
    } else if k == -114 {
        lemma_pow2_block(5, 58);
        lemma_pow2_block(5, 59);
        lemma_pow10_block(1, 50);
    } else if k == -113 {
        lemma_pow2_block(5, 54);
        lemma_pow2_block(5, 55);
        lemma_pow2_block(5, 56);
        lemma_pow10_block(1, 49);
    } else if k == -112 {
        lemma_pow2_block(5, 51);
        lemma_pow2_block(5, 52);
        lemma_pow2_block(5, 53);
        lemma_pow10_block(1, 48);
    } else if k == -111 {
        lemma_pow2_block(5, 48);
        lemma_pow2_block(5, 49);
        lemma_pow10_block(1, 47);
    } else if k == -110 {
        lemma_pow2_block(5, 44);
        lemma_pow2_block(5, 45);
        lemma_pow2_block(5, 46);
        lemma_pow10_block(1, 46);
    } else if k == -109 {
        lemma_pow2_block(5, 41);
        lemma_pow2_block(5, 42);
        lemma_pow2_block(5, 43);
        lemma_pow10_block(1, 45);
    } else if k == -108 {
        lemma_pow2_block(5, 38);
        lemma_pow2_block(5, 39);
        lemma_pow10_block(1, 44);
    } else if k == -107 {
        lemma_pow2_block(5, 35);
        lemma_pow2_block(5, 36);
        lemma_pow10_block(1, 43);
    } else if k == -106 {
        lemma_pow2_block(5, 31);
        lemma_pow2_block(5, 32);
        lemma_pow2_block(5, 33);
        lemma_pow10_block(1, 42);
    } else if k == -105 {
        lemma_pow2_block(5, 28);
        lemma_pow2_block(5, 29);
        lemma_pow10_block(1, 41);
    } else if k == -104 {
        lemma_pow2_block(5, 25);
        lemma_pow2_block(5, 26);
        lemma_pow10_block(1, 40);
    } else if k == -103 {
        lemma_pow2_block(5, 21);
        lemma_pow2_block(5, 22);
        lemma_pow2_block(5, 23);
        lemma_pow10_block(1, 39);
    } else if k == -102 {
        lemma_pow2_block(5, 18);
        lemma_pow2_block(5, 19);
        lemma_pow10_block(1, 38);
    } else {
        lemma_pow2_block(5, 15);
        lemma_pow2_block(5, 16);
        lemma_pow10_block(1, 37);
    }
}

/// The brackets of `10^k` for `-100 <= k < -68`, case by case.
proof fn lemma_brackets_m100(k: int)
    requires
        -100 <= k < -68,
    ensures
        brackets_neg(-k, -pow2_below(k), -pow2_below_irregular(k)),
{
    lemma2_to64();
    lemma2_to64_rest();
    lemma_pow10_literals();
    if k == -100 {
        lemma_pow2_block(5, 11);
        lemma_pow2_block(5, 12);
        lemma_pow2_block(5, 13);
        lemma_pow10_block(1, 36);
    } else if k == -99 {
        lemma_pow2_block(5, 8);
        lemma_pow2_block(5, 9);
        lemma_pow10_block(1, 35);
    } else if k == -98 {
        lemma_pow2_block(5, 5);
        lemma_pow2_block(5, 6);
        lemma_pow10_block(1, 34);
    } else if k == -97 {
        lemma_pow2_block(5, 1);
        lemma_pow2_block(5, 2);
        lemma_pow2_block(5, 3);
        lemma_pow10_block(1, 33);
    } else if k == -96 {
        lemma_pow2_block(4, 62);
        lemma_pow2_block(4, 63);
        lemma_pow10_block(1, 32);
    } else if k == -95 {
        lemma_pow2_block(4, 59);
        lemma_pow2_block(4, 60);
        lemma_pow10_block(1, 31);
    } else if k == -94 {
        lemma_pow2_block(4, 55);
        lemma_pow2_block(4, 56);
        lemma_pow2_block(4, 57);
        lemma_pow10_block(1, 30);
    } else if k == -93 {
        lemma_pow2_block(4, 52);
        lemma_pow2_block(4, 53);
        lemma_pow10_block(1, 29);
    } else if k == -92 {
        lemma_pow2_block(4, 49);
        lemma_pow2_block(4, 50);
        lemma_pow10_block(1, 28);
    } else if k == -91 {
        lemma_pow2_block(4, 45);
        lemma_pow2_block(4, 46);
        lemma_pow2_block(4, 47);
        lemma_pow10_block(1, 27);
    } else if k == -90 {
        lemma_pow2_block(4, 42);
        lemma_pow2_block(4, 43);
        lemma_pow10_block(1, 26);
    } else if k == -89 {
        lemma_pow2_block(4, 39);
        lemma_pow2_block(4, 40);
        lemma_pow10_block(1, 25);
    } else if k == -88 {
        lemma_pow2_block(4, 35);
        lemma_pow2_block(4, 36);
        lemma_pow2_block(4, 37);
        lemma_pow10_block(1, 24);
    } else if k == -87 {
        lemma_pow2_block(4, 32);
        lemma_pow2_block(4, 33);
        lemma_pow2_block(4, 34);
        lemma_pow10_block(1, 23);
    } else if k == -86 {
        lemma_pow2_block(4, 29);
        lemma_pow2_block(4, 30);
        lemma_pow10_block(1, 22);
    } else if k == -85 {
        lemma_pow2_block(4, 25);
        lemma_pow2_block(4, 26);
        lemma_pow2_block(4, 27);
        lemma_pow10_block(1, 21);
    } else if k == -84 {
        lemma_pow2_block(4, 22);
        lemma_pow2_block(4, 23);
        lemma_pow2_block(4, 24);
        lemma_pow10_block(1, 20);
    } else if k == -83 {
        lemma_pow2_block(4, 19);
        lemma_pow2_block(4, 20);
        lemma_pow10_block(1, 19);
    } else if k == -82 {
        lemma_pow2_block(4, 15);
        lemma_pow2_block(4, 16);
        lemma_pow2_block(4, 17);
        lemma_pow10_block(1, 18);
    } else if k == -81 {
        lemma_pow2_block(4, 12);
        lemma_pow2_block(4, 13);
        lemma_pow2_block(4, 14);
        lemma_pow10_block(1, 17);
    } else if k == -80 {
        lemma_pow2_block(4, 9);
        lemma_pow2_block(4, 10);
        lemma_pow10_block(1, 16);
    } else if k == -79 {
        lemma_pow2_block(4, 6);
        lemma_pow2_block(4, 7);
        lemma_pow10_block(1, 15);
    } else if k == -78 {
        lemma_pow2_block(4, 2);
        lemma_pow2_block(4, 3);
        lemma_pow2_block(4, 4);
        lemma_pow10_block(1, 14);
    } else if k == -77 {
        lemma_pow2_block(3, 63);
        lemma_pow2_block(4, 0);
        lemma_pow10_block(1, 13);
    } else if k == -76 {
        lemma_pow2_block(3, 60);
        lemma_pow2_block(3, 61);
        lemma_pow10_block(1, 12);
    } else if k == -75 {
        lemma_pow2_block(3, 56);
        lemma_pow2_block(3, 57);
        lemma_pow2_block(3, 58);
        lemma_pow10_block(1, 11);
    } else if k == -74 {
        lemma_pow2_block(3, 53);
        lemma_pow2_block(3, 54);
        lemma_pow10_block(1, 10);
    } else if k == -73 {
        lemma_pow2_block(3, 50);
        lemma_pow2_block(3, 51);
        lemma_pow10_block(1, 9);
    } else if k == -72 {
        lemma_pow2_block(3, 46);
        lemma_pow2_block(3, 47);
        lemma_pow2_block(3, 48);
        lemma_pow10_block(1, 8);
    } else if k == -71 {
        lemma_pow2_block(3, 43);
        lemma_pow2_block(3, 44);
        lemma_pow10_block(1, 7);
    } else if k == -70 {
        lemma_pow2_block(3, 40);
        lemma_pow2_block(3, 41);
        lemma_pow10_block(1, 6);
    } else {
        lemma_pow2_block(3, 36);
        lemma_pow2_block(3, 37);
        lemma_pow2_block(3, 38);
        lemma_pow10_block(1, 5);
    }
}

/// The brackets of `10^k` for `-68 <= k < -36`, case by case.
proof fn lemma_brackets_m68(k: int)
    requires
        -68 <= k < -36,
    ensures
        brackets_neg(-k, -pow2_below(k), -pow2_below_irregular(k)),
{
    lemma2_to64();
    lemma2_to64_rest();
    lemma_pow10_literals();
    if k == -68 {
        lemma_pow2_block(3, 33);
        lemma_pow2_block(3, 34);
        lemma_pow10_block(1, 4);
    } else if k == -67 {
        lemma_pow2_block(3, 30);
        lemma_pow2_block(3, 31);
        lemma_pow10_block(1, 3);
    } else if k == -66 {
        lemma_pow2_block(3, 26);
        lemma_pow2_block(3, 27);
        lemma_pow2_block(3, 28);
        lemma_pow10_block(1, 2);
    } else if k == -65 {
        lemma_pow2_block(3, 23);
        lemma_pow2_block(3, 24);
        lemma_pow10_block(1, 1);
    } else if k == -64 {
        lemma_pow2_block(3, 20);
        lemma_pow2_block(3, 21);
        lemma_pow10_block(1, 0);
    } else if k == -63 {
        lemma_pow2_block(3, 16);
        lemma_pow2_block(3, 17);
        lemma_pow2_block(3, 18);
    } else if k == -62 {
        lemma_pow2_block(3, 13);
        lemma_pow2_block(3, 14);
    } else if k == -61 {
        lemma_pow2_block(3, 10);
        lemma_pow2_block(3, 11);
    } else if k == -60 {
        lemma_pow2_block(3, 6);
        lemma_pow2_block(3, 7);
        lemma_pow2_block(3, 8);
    } else if k == -59 {
        lemma_pow2_block(3, 3);
        lemma_pow2_block(3, 4);
    } else if k == -58 {
        lemma_pow2_block(3, 0);
        lemma_pow2_block(3, 1);
    } else if k == -57 {
        lemma_pow2_block(2, 60);
        lemma_pow2_block(2, 61);
        lemma_pow2_block(2, 62);
    } else if k == -56 {
        lemma_pow2_block(2, 57);
        lemma_pow2_block(2, 58);
        lemma_pow2_block(2, 59);
    } else if k == -55 {
        lemma_pow2_block(2, 54);
        lemma_pow2_block(2, 55);
    } else if k == -54 {
        lemma_pow2_block(2, 50);
        lemma_pow2_block(2, 51);
        lemma_pow2_block(2, 52);
    } else if k == -53 {
        lemma_pow2_block(2, 47);
        lemma_pow2_block(2, 48);
        lemma_pow2_block(2, 49);
    } else if k == -52 {
        lemma_pow2_block(2, 44);
        lemma_pow2_block(2, 45);
    } else if k == -51 {
        lemma_pow2_block(2, 41);
        lemma_pow2_block(2, 42);
    } else if k == -50 {
        lemma_pow2_block(2, 37);
        lemma_pow2_block(2, 38);
        lemma_pow2_block(2, 39);
    } else if k == -49 {
        lemma_pow2_block(2, 34);
        lemma_pow2_block(2, 35);
    } else if k == -48 {
        lemma_pow2_block(2, 31);
        lemma_pow2_block(2, 32);
    } else if k == -47 {
        lemma_pow2_block(2, 27);
        lemma_pow2_block(2, 28);
        lemma_pow2_block(2, 29);
    } else if k == -46 {
        lemma_pow2_block(2, 24);
        lemma_pow2_block(2, 25);
    } else if k == -45 {
        lemma_pow2_block(2, 21);
        lemma_pow2_block(2, 22);
    } else if k == -44 {
        lemma_pow2_block(2, 17);
        lemma_pow2_block(2, 18);
        lemma_pow2_block(2, 19);
    } else if k == -43 {
        lemma_pow2_block(2, 14);
        lemma_pow2_block(2, 15);
    } else if k == -42 {
        lemma_pow2_block(2, 11);
        lemma_pow2_block(2, 12);
    } else if k == -41 {
        lemma_pow2_block(2, 7);
        lemma_pow2_block(2, 8);
        lemma_pow2_block(2, 9);
    } else if k == -40 {
        lemma_pow2_block(2, 4);
        lemma_pow2_block(2, 5);
    } else if k == -39 {
        lemma_pow2_block(2, 1);
        lemma_pow2_block(2, 2);
    } else if k == -38 {
        lemma_pow2_block(1, 61);
        lemma_pow2_block(1, 62);
        lemma_pow2_block(1, 63);
    } else {
        lemma_pow2_block(1, 58);
        lemma_pow2_block(1, 59);
    }
}

/// The brackets of `10^k` for `-36 <= k < -4`, case by case.
proof fn lemma_brackets_m36(k: int)
    requires
        -36 <= k < -4,
    ensures
        brackets_neg(-k, -pow2_below(k), -pow2_below_irregular(k)),
{
    lemma2_to64();
    lemma2_to64_rest();
    lemma_pow10_literals();
    if k == -36 {
        lemma_pow2_block(1, 55);
        lemma_pow2_block(1, 56);
    } else if k == -35 {
        lemma_pow2_block(1, 51);
        lemma_pow2_block(1, 52);
        lemma_pow2_block(1, 53);
    } else if k == -34 {
        lemma_pow2_block(1, 48);
        lemma_pow2_block(1, 49);
    } else if k == -33 {
        lemma_pow2_block(1, 45);
        lemma_pow2_block(1, 46);
    } else if k == -32 {
        lemma_pow2_block(1, 41);
        lemma_pow2_block(1, 42);
        lemma_pow2_block(1, 43);
    } else if k == -31 {
        lemma_pow2_block(1, 38);
        lemma_pow2_block(1, 39);
    } else if k == -30 {
        lemma_pow2_block(1, 35);
        lemma_pow2_block(1, 36);
    } else if k == -29 {
        lemma_pow2_block(1, 31);
        lemma_pow2_block(1, 32);
        lemma_pow2_block(1, 33);
    } else if k == -28 {
        lemma_pow2_block(1, 28);
        lemma_pow2_block(1, 29);
        lemma_pow2_block(1, 30);
    } else if k == -27 {
        lemma_pow2_block(1, 25);
        lemma_pow2_block(1, 26);
    } else if k == -26 {
        lemma_pow2_block(1, 21);
        lemma_pow2_block(1, 22);
        lemma_pow2_block(1, 23);
    } else if k == -25 {
        lemma_pow2_block(1, 18);
        lemma_pow2_block(1, 19);
        lemma_pow2_block(1, 20);
    } else if k == -24 {
        lemma_pow2_block(1, 15);
        lemma_pow2_block(1, 16);
    } else if k == -23 {
        lemma_pow2_block(1, 11);
        lemma_pow2_block(1, 12);
        lemma_pow2_block(1, 13);
    } else if k == -22 {
        lemma_pow2_block(1, 8);
        lemma_pow2_block(1, 9);
        lemma_pow2_block(1, 10);
    } else if k == -21 {
        lemma_pow2_block(1, 5);
        lemma_pow2_block(1, 6);
    } else if k == -20 {
        lemma_pow2_block(1, 2);
        lemma_pow2_block(1, 3);
    } else if k == -19 {
        lemma_pow2_block(1, 0);
    } else if k == -18 {
    } else if k == -17 {
    } else if k == -16 {
    } else if k == -15 {
    } else if k == -14 {
    } else if k == -13 {
    } else if k == -12 {
    } else if k == -11 {
    } else if k == -10 {
    } else if k == -9 {
    } else if k == -8 {
    } else if k == -7 {
    } else if k == -6 {
    } else {
    }
}

/// The brackets of `10^k` for `-4 <= k < 0`, case by case.
proof fn lemma_brackets_m4(k: int)
    requires
        -4 <= k < 0,
    ensures
        brackets_neg(-k, -pow2_below(k), -pow2_below_irregular(k)),
{
    lemma2_to64();
    lemma2_to64_rest();
    lemma_pow10_literals();
    if k == -4 {
    } else if k == -3 {
    } else if k == -2 {
    } else {
    }
}

/// The brackets of `10^k` for `1 <= k < 33`, case by case.
proof fn lemma_brackets_1(k: int)
    requires
        1 <= k < 33,
    ensures
        brackets_pos(k, pow2_below(k), pow2_below_irregular(k)),
{
    lemma2_to64();
    lemma2_to64_rest();
    lemma_pow10_literals();
    if k == 1 {
    } else if k == 2 {
    } else if k == 3 {
    } else if k == 4 {
    } else if k == 5 {
    } else if k == 6 {
    } else if k == 7 {
    } else if k == 8 {
    } else if k == 9 {
    } else if k == 10 {
    } else if k == 11 {
    } else if k == 12 {
    } else if k == 13 {
    } else if k == 14 {
    } else if k == 15 {
    } else if k == 16 {
    } else if k == 17 {
    } else if k == 18 {
    } else if k == 19 {
        lemma_pow2_block(1, 0);
    } else if k == 20 {
        lemma_pow2_block(1, 2);
        lemma_pow2_block(1, 3);
    } else if k == 21 {
        lemma_pow2_block(1, 5);
        lemma_pow2_block(1, 6);
        lemma_pow2_block(1, 7);
    } else if k == 22 {
        lemma_pow2_block(1, 9);
        lemma_pow2_block(1, 10);
    } else if k == 23 {
        lemma_pow2_block(1, 12);
        lemma_pow2_block(1, 13);
    } else if k == 24 {
        lemma_pow2_block(1, 15);
        lemma_pow2_block(1, 16);
        lemma_pow2_block(1, 17);
    } else if k == 25 {
        lemma_pow2_block(1, 19);
        lemma_pow2_block(1, 20);
    } else if k == 26 {
        lemma_pow2_block(1, 22);
        lemma_pow2_block(1, 23);
    } else if k == 27 {
        lemma_pow2_block(1, 25);
        lemma_pow2_block(1, 26);
        lemma_pow2_block(1, 27);
    } else if k == 28 {
        lemma_pow2_block(1, 29);
        lemma_pow2_block(1, 30);
    } else if k == 29 {
        lemma_pow2_block(1, 32);
        lemma_pow2_block(1, 33);
    } else if k == 30 {
        lemma_pow2_block(1, 35);
        lemma_pow2_block(1, 36);
        lemma_pow2_block(1, 37);
    } else if k == 31 {
        lemma_pow2_block(1, 38);
        lemma_pow2_block(1, 39);
        lemma_pow2_block(1, 40);
    } else {
        lemma_pow2_block(1, 42);
        lemma_pow2_block(1, 43);
    }
}

/// The brackets of `10^k` for `33 <= k < 65`, case by case.
proof fn lemma_brackets_33(k: int)
    requires
        33 <= k < 65,
    ensures
        brackets_pos(k, pow2_below(k), pow2_below_irregular(k)),
{
    lemma2_to64();
    lemma2_to64_rest();
    lemma_pow10_literals();
    if k == 33 {
        lemma_pow2_block(1, 45);
        lemma_pow2_block(1, 46);
        lemma_pow2_block(1, 47);
    } else if k == 34 {
        lemma_pow2_block(1, 48);
        lemma_pow2_block(1, 49);
        lemma_pow2_block(1, 50);
    } else if k == 35 {
        lemma_pow2_block(1, 52);
        lemma_pow2_block(1, 53);
    } else if k == 36 {
        lemma_pow2_block(1, 55);
        lemma_pow2_block(1, 56);
        lemma_pow2_block(1, 57);
    } else if k == 37 {
        lemma_pow2_block(1, 58);
        lemma_pow2_block(1, 59);
        lemma_pow2_block(1, 60);
    } else if k == 38 {
        lemma_pow2_block(1, 62);
        lemma_pow2_block(1, 63);
    } else if k == 39 {
        lemma_pow2_block(2, 1);
        lemma_pow2_block(2, 2);
    } else if k == 40 {
        lemma_pow2_block(2, 4);
        lemma_pow2_block(2, 5);
        lemma_pow2_block(2, 6);
    } else if k == 41 {
        lemma_pow2_block(2, 8);
        lemma_pow2_block(2, 9);
    } else if k == 42 {
        lemma_pow2_block(2, 11);
        lemma_pow2_block(2, 12);
    } else if k == 43 {
        lemma_pow2_block(2, 14);
        lemma_pow2_block(2, 15);
        lemma_pow2_block(2, 16);
    } else if k == 44 {
        lemma_pow2_block(2, 18);
        lemma_pow2_block(2, 19);
    } else if k == 45 {
        lemma_pow2_block(2, 21);
        lemma_pow2_block(2, 22);
    } else if k == 46 {
        lemma_pow2_block(2, 24);
        lemma_pow2_block(2, 25);
        lemma_pow2_block(2, 26);
    } else if k == 47 {
        lemma_pow2_block(2, 28);
        lemma_pow2_block(2, 29);
    } else if k == 48 {
        lemma_pow2_block(2, 31);
        lemma_pow2_block(2, 32);
    } else if k == 49 {
        lemma_pow2_block(2, 34);
        lemma_pow2_block(2, 35);
        lemma_pow2_block(2, 36);
    } else if k == 50 {
        lemma_pow2_block(2, 38);
        lemma_pow2_block(2, 39);
    } else if k == 51 {
        lemma_pow2_block(2, 41);
        lemma_pow2_block(2, 42);
    } else if k == 52 {
        lemma_pow2_block(2, 44);
        lemma_pow2_block(2, 45);
        lemma_pow2_block(2, 46);
    } else if k == 53 {
        lemma_pow2_block(2, 48);
        lemma_pow2_block(2, 49);
    } else if k == 54 {
        lemma_pow2_block(2, 51);
        lemma_pow2_block(2, 52);
    } else if k == 55 {
        lemma_pow2_block(2, 54);
        lemma_pow2_block(2, 55);
        lemma_pow2_block(2, 56);
    } else if k == 56 {
        lemma_pow2_block(2, 58);
        lemma_pow2_block(2, 59);
    } else if k == 57 {
        lemma_pow2_block(2, 61);
        lemma_pow2_block(2, 62);
    } else if k == 58 {
        lemma_pow2_block(3, 0);
        lemma_pow2_block(3, 1);
        lemma_pow2_block(3, 2);
    } else if k == 59 {
        lemma_pow2_block(3, 3);
        lemma_pow2_block(3, 4);
        lemma_pow2_block(3, 5);
    } else if k == 60 {
        lemma_pow2_block(3, 7);
        lemma_pow2_block(3, 8);
    } else if k == 61 {
        lemma_pow2_block(3, 10);
        lemma_pow2_block(3, 11);
        lemma_pow2_block(3, 12);
    } else if k == 62 {
        lemma_pow2_block(3, 13);
        lemma_pow2_block(3, 14);
        lemma_pow2_block(3, 15);
    } else if k == 63 {
        lemma_pow2_block(3, 17);
        lemma_pow2_block(3, 18);
    } else {
        lemma_pow2_block(3, 20);
        lemma_pow2_block(3, 21);
        lemma_pow2_block(3, 22);
        lemma_pow10_block(1, 0);
    }
}

/// The brackets of `10^k` for `65 <= k < 97`, case by case.
proof fn lemma_brackets_65(k: int)
    requires
        65 <= k < 97,
    ensures
        brackets_pos(k, pow2_below(k), pow2_below_irregular(k)),
{
    lemma2_to64();
    lemma2_to64_rest();
    lemma_pow10_literals();
    if k == 65 {
        lemma_pow2_block(3, 23);
        lemma_pow2_block(3, 24);
        lemma_pow2_block(3, 25);
        lemma_pow10_block(1, 1);
    } else if k == 66 {
        lemma_pow2_block(3, 27);
        lemma_pow2_block(3, 28);
        lemma_pow10_block(1, 2);
    } else if k == 67 {
        lemma_pow2_block(3, 30);
        lemma_pow2_block(3, 31);
        lemma_pow10_block(1, 3);
    } else if k == 68 {
        lemma_pow2_block(3, 33);
        lemma_pow2_block(3, 34);
        lemma_pow2_block(3, 35);
        lemma_pow10_block(1, 4);
    } else if k == 69 {
        lemma_pow2_block(3, 37);
        lemma_pow2_block(3, 38);
        lemma_pow10_block(1, 5);
    } else if k == 70 {
        lemma_pow2_block(3, 40);
        lemma_pow2_block(3, 41);
        lemma_pow10_block(1, 6);
    } else if k == 71 {
        lemma_pow2_block(3, 43);
        lemma_pow2_block(3, 44);
        lemma_pow2_block(3, 45);
        lemma_pow10_block(1, 7);
    } else if k == 72 {
        lemma_pow2_block(3, 47);
        lemma_pow2_block(3, 48);
        lemma_pow10_block(1, 8);
    } else if k == 73 {
        lemma_pow2_block(3, 50);
        lemma_pow2_block(3, 51);
        lemma_pow10_block(1, 9);
    } else if k == 74 {
        lemma_pow2_block(3, 53);
        lemma_pow2_block(3, 54);
        lemma_pow2_block(3, 55);
        lemma_pow10_block(1, 10);
    } else if k == 75 {
        lemma_pow2_block(3, 57);
        lemma_pow2_block(3, 58);
        lemma_pow10_block(1, 11);
    } else if k == 76 {
        lemma_pow2_block(3, 60);
        lemma_pow2_block(3, 61);
        lemma_pow10_block(1, 12);
    } else if k == 77 {
        lemma_pow2_block(3, 63);
        lemma_pow2_block(4, 0);
        lemma_pow2_block(4, 1);
        lemma_pow10_block(1, 13);
    } else if k == 78 {
        lemma_pow2_block(4, 3);
        lemma_pow2_block(4, 4);
        lemma_pow10_block(1, 14);
    } else if k == 79 {
        lemma_pow2_block(4, 6);
        lemma_pow2_block(4, 7);
        lemma_pow10_block(1, 15);
    } else if k == 80 {
        lemma_pow2_block(4, 9);
        lemma_pow2_block(4, 10);
        lemma_pow2_block(4, 11);
        lemma_pow10_block(1, 16);
    } else if k == 81 {
        lemma_pow2_block(4, 13);
        lemma_pow2_block(4, 14);
        lemma_pow10_block(1, 17);
    } else if k == 82 {
        lemma_pow2_block(4, 16);
        lemma_pow2_block(4, 17);
        lemma_pow10_block(1, 18);
    } else if k == 83 {
        lemma_pow2_block(4, 19);
        lemma_pow2_block(4, 20);
        lemma_pow2_block(4, 21);
        lemma_pow10_block(1, 19);
    } else if k == 84 {
        lemma_pow2_block(4, 23);
        lemma_pow2_block(4, 24);
        lemma_pow10_block(1, 20);
    } else if k == 85 {
        lemma_pow2_block(4, 26);
        lemma_pow2_block(4, 27);
        lemma_pow10_block(1, 21);
    } else if k == 86 {
        lemma_pow2_block(4, 29);
        lemma_pow2_block(4, 30);
        lemma_pow2_block(4, 31);
        lemma_pow10_block(1, 22);
    } else if k == 87 {
        lemma_pow2_block(4, 33);
        lemma_pow2_block(4, 34);
        lemma_pow10_block(1, 23);
    } else if k == 88 {
        lemma_pow2_block(4, 36);
        lemma_pow2_block(4, 37);
        lemma_pow10_block(1, 24);
    } else if k == 89 {
        lemma_pow2_block(4, 39);
        lemma_pow2_block(4, 40);
        lemma_pow2_block(4, 41);
        lemma_pow10_block(1, 25);
    } else if k == 90 {
        lemma_pow2_block(4, 42);
        lemma_pow2_block(4, 43);
        lemma_pow2_block(4, 44);
        lemma_pow10_block(1, 26);
    } else if k == 91 {
        lemma_pow2_block(4, 46);
        lemma_pow2_block(4, 47);
        lemma_pow10_block(1, 27);
    } else if k == 92 {
        lemma_pow2_block(4, 49);
        lemma_pow2_block(4, 50);
        lemma_pow2_block(4, 51);
        lemma_pow10_block(1, 28);
    } else if k == 93 {
        lemma_pow2_block(4, 52);
        lemma_pow2_block(4, 53);
        lemma_pow2_block(4, 54);
        lemma_pow10_block(1, 29);
    } else if k == 94 {
        lemma_pow2_block(4, 56);
        lemma_pow2_block(4, 57);
        lemma_pow10_block(1, 30);
    } else if k == 95 {
        lemma_pow2_block(4, 59);
        lemma_pow2_block(4, 60);
        lemma_pow10_block(1, 31);
    } else {
        lemma_pow2_block(4, 62);
        lemma_pow2_block(4, 63);
        lemma_pow2_block(5, 0);
        lemma_pow10_block(1, 32);
    }
}

/// The brackets of `10^k` for `97 <= k < 129`, case by case.
proof fn lemma_brackets_97(k: int)
    requires
        97 <= k < 129,
    ensures
        brackets_pos(k, pow2_below(k), pow2_below_irregular(k)),
{
    lemma2_to64();
    lemma2_to64_rest();
    lemma_pow10_literals();
    if k == 97 {
        lemma_pow2_block(5, 2);
        lemma_pow2_block(5, 3);
        lemma_pow10_block(1, 33);
    } else if k == 98 {
        lemma_pow2_block(5, 5);
        lemma_pow2_block(5, 6);
        lemma_pow10_block(1, 34);
    } else if k == 99 {
        lemma_pow2_block(5, 8);
        lemma_pow2_block(5, 9);
        lemma_pow2_block(5, 10);
        lemma_pow10_block(1, 35);
    } else if k == 100 {
        lemma_pow2_block(5, 12);
        lemma_pow2_block(5, 13);
        lemma_pow10_block(1, 36);
    } else if k == 101 {
        lemma_pow2_block(5, 15);
        lemma_pow2_block(5, 16);
        lemma_pow10_block(1, 37);
    } else if k == 102 {
        lemma_pow2_block(5, 18);
        lemma_pow2_block(5, 19);
        lemma_pow2_block(5, 20);
        lemma_pow10_block(1, 38);
    } else if k == 103 {
        lemma_pow2_block(5, 22);
        lemma_pow2_block(5, 23);
        lemma_pow10_block(1, 39);
    } else if k == 104 {
        lemma_pow2_block(5, 25);
        lemma_pow2_block(5, 26);
        lemma_pow10_block(1, 40);
    } else if k == 105 {
        lemma_pow2_block(5, 28);
        lemma_pow2_block(5, 29);
        lemma_pow2_block(5, 30);
        lemma_pow10_block(1, 41);
    } else if k == 106 {
        lemma_pow2_block(5, 32);
        lemma_pow2_block(5, 33);
        lemma_pow10_block(1, 42);
    } else if k == 107 {
        lemma_pow2_block(5, 35);
        lemma_pow2_block(5, 36);
        lemma_pow10_block(1, 43);
    } else if k == 108 {
        lemma_pow2_block(5, 38);
        lemma_pow2_block(5, 39);
        lemma_pow2_block(5, 40);
        lemma_pow10_block(1, 44);
    } else if k == 109 {
        lemma_pow2_block(5, 42);
        lemma_pow2_block(5, 43);
        lemma_pow10_block(1, 45);
    } else if k == 110 {
        lemma_pow2_block(5, 45);
        lemma_pow2_block(5, 46);
        lemma_pow10_block(1, 46);
    } else if k == 111 {
        lemma_pow2_block(5, 48);
        lemma_pow2_block(5, 49);
        lemma_pow2_block(5, 50);
        lemma_pow10_block(1, 47);
    } else if k == 112 {
        lemma_pow2_block(5, 52);
        lemma_pow2_block(5, 53);
        lemma_pow10_block(1, 48);
    } else if k == 113 {
        lemma_pow2_block(5, 55);
        lemma_pow2_block(5, 56);
        lemma_pow10_block(1, 49);
    } else if k == 114 {
        lemma_pow2_block(5, 58);
        lemma_pow2_block(5, 59);
        lemma_pow2_block(5, 60);
        lemma_pow10_block(1, 50);
    } else if k == 115 {
        lemma_pow2_block(5, 62);
        lemma_pow2_block(5, 63);
        lemma_pow10_block(1, 51);
    } else if k == 116 {
        lemma_pow2_block(6, 1);
        lemma_pow2_block(6, 2);
        lemma_pow10_block(1, 52);
    } else if k == 117 {
        lemma_pow2_block(6, 4);
        lemma_pow2_block(6, 5);
        lemma_pow2_block(6, 6);
        lemma_pow10_block(1, 53);
    } else if k == 118 {
        lemma_pow2_block(6, 7);
        lemma_pow2_block(6, 8);
        lemma_pow2_block(6, 9);
        lemma_pow10_block(1, 54);
    } else if k == 119 {
        lemma_pow2_block(6, 11);
        lemma_pow2_block(6, 12);
        lemma_pow10_block(1, 55);
    } else if k == 120 {
        lemma_pow2_block(6, 14);
        lemma_pow2_block(6, 15);
        lemma_pow2_block(6, 16);
        lemma_pow10_block(1, 56);
    } else if k == 121 {
        lemma_pow2_block(6, 17);
        lemma_pow2_block(6, 18);
        lemma_pow2_block(6, 19);
        lemma_pow10_block(1, 57);
    } else if k == 122 {
        lemma_pow2_block(6, 21);
        lemma_pow2_block(6, 22);
        lemma_pow10_block(1, 58);
    } else if k == 123 {
        lemma_pow2_block(6, 24);
        lemma_pow2_block(6, 25);
        lemma_pow2_block(6, 26);
        lemma_pow10_block(1, 59);
    } else if k == 124 {
        lemma_pow2_block(6, 27);
        lemma_pow2_block(6, 28);
        lemma_pow2_block(6, 29);
        lemma_pow10_block(1, 60);
    } else if k == 125 {
        lemma_pow2_block(6, 31);
        lemma_pow2_block(6, 32);
        lemma_pow10_block(1, 61);
    } else if k == 126 {
        lemma_pow2_block(6, 34);
        lemma_pow2_block(6, 35);
        lemma_pow10_block(1, 62);
    } else if k == 127 {
        lemma_pow2_block(6, 37);
        lemma_pow2_block(6, 38);
        lemma_pow2_block(6, 39);
        lemma_pow10_block(1, 63);
    } else {
        lemma_pow2_block(6, 41);
        lemma_pow2_block(6, 42);
        lemma_pow10_block(2, 0);
    }
}

/// The brackets of `10^k` for `129 <= k < 161`, case by case.
proof fn lemma_brackets_129(k: int)
    requires
        129 <= k < 161,
    ensures
        brackets_pos(k, pow2_below(k), pow2_below_irregular(k)),
{
    lemma2_to64();
    lemma2_to64_rest();
    lemma_pow10_literals();
    if k == 129 {
        lemma_pow2_block(6, 44);
        lemma_pow2_block(6, 45);
        lemma_pow10_block(2, 1);
    } else if k == 130 {
        lemma_pow2_block(6, 47);
        lemma_pow2_block(6, 48);
        lemma_pow2_block(6, 49);
        lemma_pow10_block(2, 2);
    } else if k == 131 {
        lemma_pow2_block(6, 51);
        lemma_pow2_block(6, 52);
        lemma_pow10_block(2, 3);
    } else if k == 132 {
        lemma_pow2_block(6, 54);
        lemma_pow2_block(6, 55);
        lemma_pow10_block(2, 4);
    } else if k == 133 {
        lemma_pow2_block(6, 57);
        lemma_pow2_block(6, 58);
        lemma_pow2_block(6, 59);
        lemma_pow10_block(2, 5);
    } else if k == 134 {
        lemma_pow2_block(6, 61);
        lemma_pow2_block(6, 62);
        lemma_pow10_block(2, 6);
    } else if k == 135 {
        lemma_pow2_block(7, 0);
        lemma_pow2_block(7, 1);
        lemma_pow10_block(2, 7);
    } else if k == 136 {
        lemma_pow2_block(7, 3);
        lemma_pow2_block(7, 4);
        lemma_pow2_block(7, 5);
        lemma_pow10_block(2, 8);
    } else if k == 137 {
        lemma_pow2_block(7, 7);
        lemma_pow2_block(7, 8);
        lemma_pow10_block(2, 9);
    } else if k == 138 {
        lemma_pow2_block(7, 10);
        lemma_pow2_block(7, 11);
        lemma_pow10_block(2, 10);
    } else if k == 139 {
        lemma_pow2_block(7, 13);
        lemma_pow2_block(7, 14);
        lemma_pow2_block(7, 15);
        lemma_pow10_block(2, 11);
    } else if k == 140 {
        lemma_pow2_block(7, 17);
        lemma_pow2_block(7, 18);
        lemma_pow10_block(2, 12);
    } else if k == 141 {
        lemma_pow2_block(7, 20);
        lemma_pow2_block(7, 21);
        lemma_pow10_block(2, 13);
    } else if k == 142 {
        lemma_pow2_block(7, 23);
        lemma_pow2_block(7, 24);
        lemma_pow2_block(7, 25);
        lemma_pow10_block(2, 14);
    } else if k == 143 {
        lemma_pow2_block(7, 27);
        lemma_pow2_block(7, 28);
        lemma_pow10_block(2, 15);
    } else if k == 144 {
        lemma_pow2_block(7, 30);
        lemma_pow2_block(7, 31);
        lemma_pow10_block(2, 16);
    } else if k == 145 {
        lemma_pow2_block(7, 33);
        lemma_pow2_block(7, 34);
        lemma_pow2_block(7, 35);
        lemma_pow10_block(2, 17);
    } else if k == 146 {
        lemma_pow2_block(7, 37);
        lemma_pow2_block(7, 38);
        lemma_pow10_block(2, 18);
    } else if k == 147 {
        lemma_pow2_block(7, 40);
        lemma_pow2_block(7, 41);
        lemma_pow10_block(2, 19);
    } else if k == 148 {
        lemma_pow2_block(7, 43);
        lemma_pow2_block(7, 44);
        lemma_pow2_block(7, 45);
        lemma_pow10_block(2, 20);
    } else if k == 149 {
        lemma_pow2_block(7, 46);
        lemma_pow2_block(7, 47);
        lemma_pow2_block(7, 48);
        lemma_pow10_block(2, 21);
    } else if k == 150 {
        lemma_pow2_block(7, 50);
        lemma_pow2_block(7, 51);
        lemma_pow10_block(2, 22);
    } else if k == 151 {
        lemma_pow2_block(7, 53);
        lemma_pow2_block(7, 54);
        lemma_pow2_block(7, 55);
        lemma_pow10_block(2, 23);
    } else if k == 152 {
        lemma_pow2_block(7, 56);
        lemma_pow2_block(7, 57);
        lemma_pow2_block(7, 58);
        lemma_pow10_block(2, 24);
    } else if k == 153 {
        lemma_pow2_block(7, 60);
        lemma_pow2_block(7, 61);
        lemma_pow10_block(2, 25);
    } else if k == 154 {
        lemma_pow2_block(7, 63);
        lemma_pow2_block(8, 0);
        lemma_pow10_block(2, 26);
    } else if k == 155 {
        lemma_pow2_block(8, 2);
        lemma_pow2_block(8, 3);
        lemma_pow2_block(8, 4);
        lemma_pow10_block(2, 27);
    } else if k == 156 {
        lemma_pow2_block(8, 6);
        lemma_pow2_block(8, 7);
        lemma_pow10_block(2, 28);
    } else if k == 157 {
        lemma_pow2_block(8, 9);
        lemma_pow2_block(8, 10);
        lemma_pow10_block(2, 29);
    } else if k == 158 {
        lemma_pow2_block(8, 12);
        lemma_pow2_block(8, 13);
        lemma_pow2_block(8, 14);
        lemma_pow10_block(2, 30);
    } else if k == 159 {
        lemma_pow2_block(8, 16);
        lemma_pow2_block(8, 17);
        lemma_pow10_block(2, 31);
    } else {
        lemma_pow2_block(8, 19);
        lemma_pow2_block(8, 20);
        lemma_pow10_block(2, 32);
    }
}

/// The brackets of `10^k` for `161 <= k < 193`, case by case.
proof fn lemma_brackets_161(k: int)
    requires
        161 <= k < 193,
    ensures
        brackets_pos(k, pow2_below(k), pow2_below_irregular(k)),
{
    lemma2_to64();
    lemma2_to64_rest();
    lemma_pow10_literals();
    if k == 161 {
        lemma_pow2_block(8, 22);
        lemma_pow2_block(8, 23);
        lemma_pow2_block(8, 24);
        lemma_pow10_block(2, 33);
    } else if k == 162 {
        lemma_pow2_block(8, 26);
        lemma_pow2_block(8, 27);
        lemma_pow10_block(2, 34);
    } else if k == 163 {
        lemma_pow2_block(8, 29);
        lemma_pow2_block(8, 30);
        lemma_pow10_block(2, 35);
    } else if k == 164 {
        lemma_pow2_block(8, 32);
        lemma_pow2_block(8, 33);
        lemma_pow2_block(8, 34);
        lemma_pow10_block(2, 36);
    } else if k == 165 {
        lemma_pow2_block(8, 36);
        lemma_pow2_block(8, 37);
        lemma_pow10_block(2, 37);
    } else if k == 166 {
        lemma_pow2_block(8, 39);
        lemma_pow2_block(8, 40);
        lemma_pow10_block(2, 38);
    } else if k == 167 {
        lemma_pow2_block(8, 42);
        lemma_pow2_block(8, 43);
        lemma_pow2_block(8, 44);
        lemma_pow10_block(2, 39);
    } else if k == 168 {
        lemma_pow2_block(8, 46);
        lemma_pow2_block(8, 47);
        lemma_pow10_block(2, 40);
    } else if k == 169 {
        lemma_pow2_block(8, 49);
        lemma_pow2_block(8, 50);
        lemma_pow10_block(2, 41);
    } else if k == 170 {
        lemma_pow2_block(8, 52);
        lemma_pow2_block(8, 53);
        lemma_pow2_block(8, 54);
        lemma_pow10_block(2, 42);
    } else if k == 171 {
        lemma_pow2_block(8, 56);
        lemma_pow2_block(8, 57);
        lemma_pow10_block(2, 43);
    } else if k == 172 {
        lemma_pow2_block(8, 59);
        lemma_pow2_block(8, 60);
        lemma_pow10_block(2, 44);
    } else if k == 173 {
        lemma_pow2_block(8, 62);
        lemma_pow2_block(8, 63);
        lemma_pow2_block(9, 0);
        lemma_pow10_block(2, 45);
    } else if k == 174 {
        lemma_pow2_block(9, 2);
        lemma_pow2_block(9, 3);
        lemma_pow10_block(2, 46);
    } else if k == 175 {
        lemma_pow2_block(9, 5);
        lemma_pow2_block(9, 6);
        lemma_pow10_block(2, 47);
    } else if k == 176 {
        lemma_pow2_block(9, 8);
        lemma_pow2_block(9, 9);
        lemma_pow2_block(9, 10);
        lemma_pow10_block(2, 48);
    } else if k == 177 {
        lemma_pow2_block(9, 11);
        lemma_pow2_block(9, 12);
        lemma_pow2_block(9, 13);
        lemma_pow10_block(2, 49);
    } else if k == 178 {
        lemma_pow2_block(9, 15);
        lemma_pow2_block(9, 16);
        lemma_pow10_block(2, 50);
    } else if k == 179 {
        lemma_pow2_block(9, 18);
        lemma_pow2_block(9, 19);
        lemma_pow2_block(9, 20);
        lemma_pow10_block(2, 51);
    } else if k == 180 {
        lemma_pow2_block(9, 21);
        lemma_pow2_block(9, 22);
        lemma_pow2_block(9, 23);
        lemma_pow10_block(2, 52);
    } else if k == 181 {
        lemma_pow2_block(9, 25);
        lemma_pow2_block(9, 26);
        lemma_pow10_block(2, 53);
    } else if k == 182 {
        lemma_pow2_block(9, 28);
        lemma_pow2_block(9, 29);
        lemma_pow2_block(9, 30);
        lemma_pow10_block(2, 54);
    } else if k == 183 {
        lemma_pow2_block(9, 31);
        lemma_pow2_block(9, 32);
        lemma_pow2_block(9, 33);
        lemma_pow10_block(2, 55);
    } else if k == 184 {
        lemma_pow2_block(9, 35);
        lemma_pow2_block(9, 36);
        lemma_pow10_block(2, 56);
    } else if k == 185 {
        lemma_pow2_block(9, 38);
        lemma_pow2_block(9, 39);
        lemma_pow10_block(2, 57);
    } else if k == 186 {
        lemma_pow2_block(9, 41);
        lemma_pow2_block(9, 42);
        lemma_pow2_block(9, 43);
        lemma_pow10_block(2, 58);
    } else if k == 187 {
        lemma_pow2_block(9, 45);
        lemma_pow2_block(9, 46);
        lemma_pow10_block(2, 59);
    } else if k == 188 {
        lemma_pow2_block(9, 48);
        lemma_pow2_block(9, 49);
        lemma_pow10_block(2, 60);
    } else if k == 189 {
        lemma_pow2_block(9, 51);
        lemma_pow2_block(9, 52);
        lemma_pow2_block(9, 53);
        lemma_pow10_block(2, 61);
    } else if k == 190 {
        lemma_pow2_block(9, 55);
        lemma_pow2_block(9, 56);
        lemma_pow10_block(2, 62);
    } else if k == 191 {
        lemma_pow2_block(9, 58);
        lemma_pow2_block(9, 59);
        lemma_pow10_block(2, 63);
    } else {
        lemma_pow2_block(9, 61);
        lemma_pow2_block(9, 62);
        lemma_pow2_block(9, 63);
        lemma_pow10_block(3, 0);
    }
}

/// The brackets of `10^k` for `193 <= k < 225`, case by case.
proof fn lemma_brackets_193(k: int)
    requires
        193 <= k < 225,
    ensures
        brackets_pos(k, pow2_below(k), pow2_below_irregular(k)),
{
    lemma2_to64();
    lemma2_to64_rest();
    lemma_pow10_literals();
    if k == 193 {
        lemma_pow2_block(10, 1);
        lemma_pow2_block(10, 2);
        lemma_pow10_block(3, 1);
    } else if k == 194 {
        lemma_pow2_block(10, 4);
        lemma_pow2_block(10, 5);
        lemma_pow10_block(3, 2);
    } else if k == 195 {
        lemma_pow2_block(10, 7);
        lemma_pow2_block(10, 8);
        lemma_pow2_block(10, 9);
        lemma_pow10_block(3, 3);
    } else if k == 196 {
        lemma_pow2_block(10, 11);
        lemma_pow2_block(10, 12);
        lemma_pow10_block(3, 4);
    } else if k == 197 {
        lemma_pow2_block(10, 14);
        lemma_pow2_block(10, 15);
        lemma_pow10_block(3, 5);
    } else if k == 198 {
        lemma_pow2_block(10, 17);
        lemma_pow2_block(10, 18);
        lemma_pow2_block(10, 19);
        lemma_pow10_block(3, 6);
    } else if k == 199 {
        lemma_pow2_block(10, 21);
        lemma_pow2_block(10, 22);
        lemma_pow10_block(3, 7);
    } else if k == 200 {
        lemma_pow2_block(10, 24);
        lemma_pow2_block(10, 25);
        lemma_pow10_block(3, 8);
    } else if k == 201 {
        lemma_pow2_block(10, 27);
        lemma_pow2_block(10, 28);
        lemma_pow2_block(10, 29);
        lemma_pow10_block(3, 9);
    } else if k == 202 {
        lemma_pow2_block(10, 31);
        lemma_pow2_block(10, 32);
        lemma_pow10_block(3, 10);
    } else if k == 203 {
        lemma_pow2_block(10, 34);
        lemma_pow2_block(10, 35);
        lemma_pow10_block(3, 11);
    } else if k == 204 {
        lemma_pow2_block(10, 37);
        lemma_pow2_block(10, 38);
        lemma_pow2_block(10, 39);
        lemma_pow10_block(3, 12);
    } else if k == 205 {
        lemma_pow2_block(10, 40);
        lemma_pow2_block(10, 41);
        lemma_pow2_block(10, 42);
        lemma_pow10_block(3, 13);
    } else if k == 206 {
        lemma_pow2_block(10, 44);
        lemma_pow2_block(10, 45);
        lemma_pow10_block(3, 14);
    } else if k == 207 {
        lemma_pow2_block(10, 47);
        lemma_pow2_block(10, 48);
        lemma_pow2_block(10, 49);
        lemma_pow10_block(3, 15);
    } else if k == 208 {
        lemma_pow2_block(10, 50);
        lemma_pow2_block(10, 51);
        lemma_pow2_block(10, 52);
        lemma_pow10_block(3, 16);
    } else if k == 209 {
        lemma_pow2_block(10, 54);
        lemma_pow2_block(10, 55);
        lemma_pow10_block(3, 17);
    } else if k == 210 {
        lemma_pow2_block(10, 57);
        lemma_pow2_block(10, 58);
        lemma_pow2_block(10, 59);
        lemma_pow10_block(3, 18);
    } else if k == 211 {
        lemma_pow2_block(10, 60);
        lemma_pow2_block(10, 61);
        lemma_pow2_block(10, 62);
        lemma_pow10_block(3, 19);
    } else if k == 212 {
        lemma_pow2_block(11, 0);
        lemma_pow2_block(11, 1);
        lemma_pow10_block(3, 20);
    } else if k == 213 {
        lemma_pow2_block(11, 3);
        lemma_pow2_block(11, 4);
        lemma_pow10_block(3, 21);
    } else if k == 214 {
        lemma_pow2_block(11, 6);
        lemma_pow2_block(11, 7);
        lemma_pow2_block(11, 8);
        lemma_pow10_block(3, 22);
    } else if k == 215 {
        lemma_pow2_block(11, 10);
        lemma_pow2_block(11, 11);
        lemma_pow10_block(3, 23);
    } else if k == 216 {
        lemma_pow2_block(11, 13);
        lemma_pow2_block(11, 14);
        lemma_pow10_block(3, 24);
    } else if k == 217 {
        lemma_pow2_block(11, 16);
        lemma_pow2_block(11, 17);
        lemma_pow2_block(11, 18);
        lemma_pow10_block(3, 25);
    } else if k == 218 {
        lemma_pow2_block(11, 20);
        lemma_pow2_block(11, 21);
        lemma_pow10_block(3, 26);
    } else if k == 219 {
        lemma_pow2_block(11, 23);
        lemma_pow2_block(11, 24);
        lemma_pow10_block(3, 27);
    } else if k == 220 {
        lemma_pow2_block(11, 26);
        lemma_pow2_block(11, 27);
        lemma_pow2_block(11, 28);
        lemma_pow10_block(3, 28);
    } else if k == 221 {
        lemma_pow2_block(11, 30);
        lemma_pow2_block(11, 31);
        lemma_pow10_block(3, 29);
    } else if k == 222 {
        lemma_pow2_block(11, 33);
        lemma_pow2_block(11, 34);
        lemma_pow10_block(3, 30);
    } else if k == 223 {
        lemma_pow2_block(11, 36);
        lemma_pow2_block(11, 37);
        lemma_pow2_block(11, 38);
        lemma_pow10_block(3, 31);
    } else {
        lemma_pow2_block(11, 40);
        lemma_pow2_block(11, 41);
        lemma_pow10_block(3, 32);
    }
}

/// The brackets of `10^k` for `225 <= k < 257`, case by case.
proof fn lemma_brackets_225(k: int)
    requires
        225 <= k < 257,
    ensures
        brackets_pos(k, pow2_below(k), pow2_below_irregular(k)),
{
    lemma2_to64();
    lemma2_to64_rest();
    lemma_pow10_literals();
    if k == 225 {
        lemma_pow2_block(11, 43);
        lemma_pow2_block(11, 44);
        lemma_pow10_block(3, 33);
    } else if k == 226 {
        lemma_pow2_block(11, 46);
        lemma_pow2_block(11, 47);
        lemma_pow2_block(11, 48);
        lemma_pow10_block(3, 34);
    } else if k == 227 {
        lemma_pow2_block(11, 50);
        lemma_pow2_block(11, 51);
        lemma_pow10_block(3, 35);
    } else if k == 228 {
        lemma_pow2_block(11, 53);
        lemma_pow2_block(11, 54);
        lemma_pow10_block(3, 36);
    } else if k == 229 {
        lemma_pow2_block(11, 56);
        lemma_pow2_block(11, 57);
        lemma_pow2_block(11, 58);
        lemma_pow10_block(3, 37);
    } else if k == 230 {
        lemma_pow2_block(11, 60);
        lemma_pow2_block(11, 61);
        lemma_pow10_block(3, 38);
    } else if k == 231 {
        lemma_pow2_block(11, 63);
        lemma_pow2_block(12, 0);
        lemma_pow10_block(3, 39);
    } else if k == 232 {
        lemma_pow2_block(12, 2);
        lemma_pow2_block(12, 3);
        lemma_pow2_block(12, 4);
        lemma_pow10_block(3, 40);
    } else if k == 233 {
        lemma_pow2_block(12, 6);
        lemma_pow2_block(12, 7);
        lemma_pow10_block(3, 41);
    } else if k == 234 {
        lemma_pow2_block(12, 9);
        lemma_pow2_block(12, 10);
        lemma_pow10_block(3, 42);
    } else if k == 235 {
        lemma_pow2_block(12, 12);
        lemma_pow2_block(12, 13);
        lemma_pow2_block(12, 14);
        lemma_pow10_block(3, 43);
    } else if k == 236 {
        lemma_pow2_block(12, 15);
        lemma_pow2_block(12, 16);
        lemma_pow2_block(12, 17);
        lemma_pow10_block(3, 44);
    } else if k == 237 {
        lemma_pow2_block(12, 19);
        lemma_pow2_block(12, 20);
        lemma_pow10_block(3, 45);
    } else if k == 238 {
        lemma_pow2_block(12, 22);
        lemma_pow2_block(12, 23);
        lemma_pow2_block(12, 24);
        lemma_pow10_block(3, 46);
    } else if k == 239 {
        lemma_pow2_block(12, 25);
        lemma_pow2_block(12, 26);
        lemma_pow2_block(12, 27);
        lemma_pow10_block(3, 47);
    } else if k == 240 {
        lemma_pow2_block(12, 29);
        lemma_pow2_block(12, 30);
        lemma_pow10_block(3, 48);
    } else if k == 241 {
        lemma_pow2_block(12, 32);
        lemma_pow2_block(12, 33);
        lemma_pow10_block(3, 49);
    } else if k == 242 {
        lemma_pow2_block(12, 35);
        lemma_pow2_block(12, 36);
        lemma_pow2_block(12, 37);
        lemma_pow10_block(3, 50);
    } else if k == 243 {
        lemma_pow2_block(12, 39);
        lemma_pow2_block(12, 40);
        lemma_pow10_block(3, 51);
    } else if k == 244 {
        lemma_pow2_block(12, 42);
        lemma_pow2_block(12, 43);
        lemma_pow10_block(3, 52);
    } else if k == 245 {
        lemma_pow2_block(12, 45);
        lemma_pow2_block(12, 46);
        lemma_pow2_block(12, 47);
        lemma_pow10_block(3, 53);
    } else if k == 246 {
        lemma_pow2_block(12, 49);
        lemma_pow2_block(12, 50);
        lemma_pow10_block(3, 54);
    } else if k == 247 {
        lemma_pow2_block(12, 52);
        lemma_pow2_block(12, 53);
        lemma_pow10_block(3, 55);
    } else if k == 248 {
        lemma_pow2_block(12, 55);
        lemma_pow2_block(12, 56);
        lemma_pow2_block(12, 57);
        lemma_pow10_block(3, 56);
    } else if k == 249 {
        lemma_pow2_block(12, 59);
        lemma_pow2_block(12, 60);
        lemma_pow10_block(3, 57);
    } else if k == 250 {
        lemma_pow2_block(12, 62);
        lemma_pow2_block(12, 63);
        lemma_pow10_block(3, 58);
    } else if k == 251 {
        lemma_pow2_block(13, 1);
        lemma_pow2_block(13, 2);
        lemma_pow2_block(13, 3);
        lemma_pow10_block(3, 59);
    } else if k == 252 {
        lemma_pow2_block(13, 5);
        lemma_pow2_block(13, 6);
        lemma_pow10_block(3, 60);
    } else if k == 253 {
        lemma_pow2_block(13, 8);
        lemma_pow2_block(13, 9);
        lemma_pow10_block(3, 61);
    } else if k == 254 {
        lemma_pow2_block(13, 11);
        lemma_pow2_block(13, 12);
        lemma_pow2_block(13, 13);
        lemma_pow10_block(3, 62);
    } else if k == 255 {
        lemma_pow2_block(13, 15);
        lemma_pow2_block(13, 16);
        lemma_pow10_block(3, 63);
    } else {
        lemma_pow2_block(13, 18);
        lemma_pow2_block(13, 19);
        lemma_pow10_block(4, 0);
    }
}

/// The brackets of `10^k` for `257 <= k < 289`, case by case.
proof fn lemma_brackets_257(k: int)
    requires
        257 <= k < 289,
    ensures
        brackets_pos(k, pow2_below(k), pow2_below_irregular(k)),
{
    lemma2_to64();
    lemma2_to64_rest();
    lemma_pow10_literals();
    if k == 257 {
        lemma_pow2_block(13, 21);
        lemma_pow2_block(13, 22);
        lemma_pow2_block(13, 23);
        lemma_pow10_block(4, 1);
    } else if k == 258 {
        lemma_pow2_block(13, 25);
        lemma_pow2_block(13, 26);
        lemma_pow10_block(4, 2);
    } else if k == 259 {
        lemma_pow2_block(13, 28);
        lemma_pow2_block(13, 29);
        lemma_pow10_block(4, 3);
    } else if k == 260 {
        lemma_pow2_block(13, 31);
        lemma_pow2_block(13, 32);
        lemma_pow2_block(13, 33);
        lemma_pow10_block(4, 4);
    } else if k == 261 {
        lemma_pow2_block(13, 35);
        lemma_pow2_block(13, 36);
        lemma_pow10_block(4, 5);
    } else if k == 262 {
        lemma_pow2_block(13, 38);
        lemma_pow2_block(13, 39);
        lemma_pow10_block(4, 6);
    } else if k == 263 {
        lemma_pow2_block(13, 41);
        lemma_pow2_block(13, 42);
        lemma_pow2_block(13, 43);
        lemma_pow10_block(4, 7);
    } else if k == 264 {
        lemma_pow2_block(13, 44);
        lemma_pow2_block(13, 45);
        lemma_pow2_block(13, 46);
        lemma_pow10_block(4, 8);
    } else if k == 265 {
        lemma_pow2_block(13, 48);
        lemma_pow2_block(13, 49);
        lemma_pow10_block(4, 9);
    } else if k == 266 {
        lemma_pow2_block(13, 51);
        lemma_pow2_block(13, 52);
        lemma_pow2_block(13, 53);
        lemma_pow10_block(4, 10);
    } else if k == 267 {
        lemma_pow2_block(13, 54);
        lemma_pow2_block(13, 55);
        lemma_pow2_block(13, 56);
        lemma_pow10_block(4, 11);
    } else if k == 268 {
        lemma_pow2_block(13, 58);
        lemma_pow2_block(13, 59);
        lemma_pow10_block(4, 12);
    } else if k == 269 {
        lemma_pow2_block(13, 61);
        lemma_pow2_block(13, 62);
        lemma_pow2_block(13, 63);
        lemma_pow10_block(4, 13);
    } else if k == 270 {
        lemma_pow2_block(14, 0);
        lemma_pow2_block(14, 1);
        lemma_pow2_block(14, 2);
        lemma_pow10_block(4, 14);
    } else if k == 271 {
        lemma_pow2_block(14, 4);
        lemma_pow2_block(14, 5);
        lemma_pow10_block(4, 15);
    } else if k == 272 {
        lemma_pow2_block(14, 7);
        lemma_pow2_block(14, 8);
        lemma_pow10_block(4, 16);
    } else if k == 273 {
        lemma_pow2_block(14, 10);
        lemma_pow2_block(14, 11);
        lemma_pow2_block(14, 12);
        lemma_pow10_block(4, 17);
    } else if k == 274 {
        lemma_pow2_block(14, 14);
        lemma_pow2_block(14, 15);
        lemma_pow10_block(4, 18);
    } else if k == 275 {
        lemma_pow2_block(14, 17);
        lemma_pow2_block(14, 18);
        lemma_pow10_block(4, 19);
    } else if k == 276 {
        lemma_pow2_block(14, 20);
        lemma_pow2_block(14, 21);
        lemma_pow2_block(14, 22);
        lemma_pow10_block(4, 20);
    } else if k == 277 {
        lemma_pow2_block(14, 24);
        lemma_pow2_block(14, 25);
        lemma_pow10_block(4, 21);
    } else if k == 278 {
        lemma_pow2_block(14, 27);
        lemma_pow2_block(14, 28);
        lemma_pow10_block(4, 22);
    } else if k == 279 {
        lemma_pow2_block(14, 30);
        lemma_pow2_block(14, 31);
        lemma_pow2_block(14, 32);
        lemma_pow10_block(4, 23);
    } else if k == 280 {
        lemma_pow2_block(14, 34);
        lemma_pow2_block(14, 35);
        lemma_pow10_block(4, 24);
    } else if k == 281 {
        lemma_pow2_block(14, 37);
        lemma_pow2_block(14, 38);
        lemma_pow10_block(4, 25);
    } else if k == 282 {
        lemma_pow2_block(14, 40);
        lemma_pow2_block(14, 41);
        lemma_pow2_block(14, 42);
        lemma_pow10_block(4, 26);
    } else if k == 283 {
        lemma_pow2_block(14, 44);
        lemma_pow2_block(14, 45);
        lemma_pow10_block(4, 27);
    } else if k == 284 {
        lemma_pow2_block(14, 47);
        lemma_pow2_block(14, 48);
        lemma_pow10_block(4, 28);
    } else if k == 285 {
        lemma_pow2_block(14, 50);
        lemma_pow2_block(14, 51);
        lemma_pow2_block(14, 52);
        lemma_pow10_block(4, 29);
    } else if k == 286 {
        lemma_pow2_block(14, 54);
        lemma_pow2_block(14, 55);
        lemma_pow10_block(4, 30);
    } else if k == 287 {
        lemma_pow2_block(14, 57);
        lemma_pow2_block(14, 58);
        lemma_pow10_block(4, 31);
    } else {
        lemma_pow2_block(14, 60);
        lemma_pow2_block(14, 61);
        lemma_pow2_block(14, 62);
        lemma_pow10_block(4, 32);
    }
}

/// The brackets of `10^k` for `289 <= k < 294`, case by case.
proof fn lemma_brackets_289(k: int)
    requires
        289 <= k < 294,
    ensures
        brackets_pos(k, pow2_below(k), pow2_below_irregular(k)),
{
    lemma2_to64();
    lemma2_to64_rest();
    lemma_pow10_literals();
    if k == 289 {
        lemma_pow2_block(15, 0);
        lemma_pow2_block(15, 1);
        lemma_pow10_block(4, 33);
    } else if k == 290 {
        lemma_pow2_block(15, 3);
        lemma_pow2_block(15, 4);
        lemma_pow10_block(4, 34);
    } else if k == 291 {
        lemma_pow2_block(15, 6);
        lemma_pow2_block(15, 7);
        lemma_pow2_block(15, 8);
        lemma_pow10_block(4, 35);
    } else if k == 292 {
        lemma_pow2_block(15, 10);
        lemma_pow2_block(15, 11);
        lemma_pow10_block(4, 36);
    } else {
        lemma_pow2_block(15, 13);
        lemma_pow2_block(15, 14);
        lemma_pow10_block(4, 37);
    }
}

/// The brackets of `10^k` over every decimal exponent of a finite float.
proof fn lemma_brackets_cases(k: int)
    requires
        -324 <= k <= 293,
    ensures
        k < 0 ==> brackets_neg(-k, -pow2_below(k), -pow2_below_irregular(k)),
        k > 0 ==> brackets_pos(k, pow2_below(k), pow2_below_irregular(k)),
{
    if -324 <= k < -292 {
        lemma_brackets_m324(k);
    } else if -292 <= k < -260 {
        lemma_brackets_m292(k);
    } else if -260 <= k < -228 {
        lemma_brackets_m260(k);
    } else if -228 <= k < -196 {
        lemma_brackets_m228(k);
    } else if -196 <= k < -164 {
        lemma_brackets_m196(k);
    } else if -164 <= k < -132 {
        lemma_brackets_m164(k);
    } else if -132 <= k < -100 {
        lemma_brackets_m132(k);
    } else if -100 <= k < -68 {
        lemma_brackets_m100(k);
    } else if -68 <= k < -36 {
        lemma_brackets_m68(k);
    } else if -36 <= k < -4 {
        lemma_brackets_m36(k);
    } else if -4 <= k < 0 {
        lemma_brackets_m4(k);
    } else if 1 <= k < 33 {
        lemma_brackets_1(k);
    } else if 33 <= k < 65 {
        lemma_brackets_33(k);
    } else if 65 <= k < 97 {
        lemma_brackets_65(k);
    } else if 97 <= k < 129 {
        lemma_brackets_97(k);
    } else if 129 <= k < 161 {
        lemma_brackets_129(k);
    } else if 161 <= k < 193 {
        lemma_brackets_161(k);
    } else if 193 <= k < 225 {
        lemma_brackets_193(k);
    } else if 225 <= k < 257 {
        lemma_brackets_225(k);
    } else if 257 <= k < 289 {
        lemma_brackets_257(k);
    } else if k > 0 {
        lemma_brackets_289(k);
    }
}

/// `10^k` lies in `(2^t, 2^(t + 1)]` and in `(3/4 * 2^u, 3/4 * 2^(u + 1)]`, with `t` and
/// `u` as above, written over the fractions of `2^q` and `10^k`.
spec fn brackets(k: int) -> bool {
    let t = pow2_below(k);
    let u = pow2_below_irregular(k);
    &&& pow2_num(t) * pow10_den(k) < pow10_num(k) * pow2_den(t)
    &&& pow10_num(k) * pow2_den(t + 1) <= pow2_num(t + 1) * pow10_den(k)
    &&& (3 * pow2_num(u)) * pow10_den(k) < pow10_num(k) * (4 * pow2_den(u))
    &&& pow10_num(k) * (4 * pow2_den(u + 1)) <= (3 * pow2_num(u + 1)) * pow10_den(k)
}

/// The brackets of every `10^k` a finite float can have as its decimal exponent.
proof fn lemma_brackets(k: int)
    requires
        -324 <= k <= 293,
    ensures
        brackets(k),
{
    lemma_brackets_cases(k);
    let t = pow2_below(k);
    let u = pow2_below_irregular(k);
    if k < 0 {
        let (m, a, b) = (-k, -t, -u);
        assert(a - 1 > 0 && b - 1 > 0);
        assert(pow10_num(k) == 1 && pow10_den(k) == pow10(m as nat));
        assert(pow2_num(t) == 1 && pow2_den(t) == pow2(a as nat));
        assert(pow2_num(t + 1) == 1 && pow2_den(t + 1) == pow2((a - 1) as nat));
        assert(pow2_num(u) == 1 && pow2_den(u) == pow2(b as nat));
        assert(pow2_num(u + 1) == 1 && pow2_den(u + 1) == pow2((b - 1) as nat));
        lemma_unit(pow2_num(t), pow10_den(k), 1);
        lemma_unit(pow10_num(k), pow2_den(t), 1);
        lemma_unit(pow10_num(k), pow2_den(t + 1), 1);
        lemma_unit(pow2_num(t + 1), pow10_den(k), 1);
        lemma_unit(pow2_num(u), pow10_den(k), 3);
        lemma_unit(pow10_num(k), 4 * pow2_den(u), 1);
        lemma_unit(pow10_num(k), 4 * pow2_den(u + 1), 1);
        lemma_unit(pow2_num(u + 1), pow10_den(k), 3);
    } else if k > 0 {
        assert(t >= 0 && u >= 0);
        assert(pow10_den(k) == 1 && pow10_num(k) == pow10(k as nat));
        assert(pow2_den(t) == 1 && pow2_num(t) == pow2(t as nat));
        assert(pow2_den(t + 1) == 1 && pow2_num(t + 1) == pow2((t + 1) as nat));
        assert(pow2_den(u) == 1 && pow2_num(u) == pow2(u as nat));
        assert(pow2_den(u + 1) == 1 && pow2_num(u + 1) == pow2((u + 1) as nat));
        lemma_unit(pow10_den(k), pow2_num(t), 1);
        lemma_unit(pow2_den(t), pow10_num(k), 1);
        lemma_unit(pow2_den(t + 1), pow10_num(k), 1);
        lemma_unit(pow10_den(k), pow2_num(t + 1), 1);
        lemma_unit(pow10_den(k), 3 * pow2_num(u), 1);
        lemma_unit(pow2_den(u), pow10_num(k), 4);
        lemma_unit(pow2_den(u + 1), pow10_num(k), 4);
        lemma_unit(pow10_den(k), 3 * pow2_num(u + 1), 1);
    } else {
        assert(t == -1 && u == 0);
        lemma2_to64();
        assert(pow10(0) == 1);
        assert(pow10_num(k) == 1 && pow10_den(k) == 1 && pow10_num(k) * 1 == 1);
        assert(pow2_num(t) == 1 && pow2_den(t) == 2 && pow2_num(t + 1) == 1 && pow2_den(t + 1)
            == 1);
        assert(pow2_num(u) == 1 && pow2_den(u) == 1 && pow2_num(u + 1) == 2 && pow2_den(u + 1)
            == 1);
        lemma_unit(pow10_den(k), pow2_num(t), 1);
        lemma_unit(pow10_num(k), pow2_den(t), 1);
        lemma_unit(pow10_num(k), pow2_den(t + 1), 1);
        lemma_unit(pow10_den(k), pow2_num(t + 1), 1);
        lemma_unit(pow10_den(k), 3 * pow2_num(u), 1);
        lemma_unit(pow10_num(k), 4 * pow2_den(u), 1);
        lemma_unit(pow10_num(k), 4 * pow2_den(u + 1), 1);
        lemma_unit(pow10_den(k), 3 * pow2_num(u + 1), 1);
    }
}

/// Products with a factor one.
proof fn lemma_unit(x: nat, y: nat, c: nat)
    requires
        x == 1,
    ensures
        x * y == y,
        y * x == y,
        (c * x) * y == c * y,
        y * (c * x) == c * y,
{
    assert(x * y == y && y * x == y && (c * x) * y == c * y && y * (c * x) == c * y)
        by (nonlinear_arith)
        requires
            x == 1,
    ;
}

/// The fractions of the powers of two have positive denominators and numerators.
pub proof fn lemma_pow_fracs_positive(q: int, k: int)
    ensures
        pow2_num(q) > 0,
        pow2_den(q) > 0,
        pow10_num(k) > 0,
        pow10_den(k) > 0,
{
    if q >= 0 {
        vstd::arithmetic::power2::lemma_pow2_pos(q as nat);
    } else {
        vstd::arithmetic::power2::lemma_pow2_pos((-q) as nat);
    }
    if k >= 0 {
        lemma_pow10_positive(k as nat);
    } else {
        lemma_pow10_positive((-k) as nat);
    }
}

/// `2^q` grows with `q`.
proof fn lemma_pow2_frac_monotonic(q1: int, q2: int)
    requires
        q1 <= q2,
    ensures
        pow2_num(q1) * pow2_den(q2) <= pow2_num(q2) * pow2_den(q1),
{
    lemma_pow_fracs_positive(q1, 0);
    lemma_pow_fracs_positive(q2, 0);
    if q1 >= 0 {
        if q1 < q2 {
            vstd::arithmetic::power2::lemma_pow2_strictly_increases(q1 as nat, q2 as nat);
        }
    } else if q2 < 0 {
        if q1 < q2 {
            vstd::arithmetic::power2::lemma_pow2_strictly_increases((-q2) as nat, (-q1) as nat);
        }
    } else {
        assert(1 * 1 <= pow2_num(q2) * pow2_den(q1)) by (nonlinear_arith)
            requires
                pow2_num(q2) >= 1,
                pow2_den(q1) >= 1,
        ;
    }
}

/// `a <= b` and `b <= c` give `a <= c`, for fractions with positive denominators.
proof fn lemma_frac_le_trans(an: nat, ad: nat, bn: nat, bd: nat, cn: nat, cd: nat)
    requires
        ad > 0,
        bd > 0,
        cd > 0,
        an * bd <= bn * ad,
        bn * cd <= cn * bd,
    ensures
        an * cd <= cn * ad,
{
    assert(an * cd * bd <= cn * ad * bd) by (nonlinear_arith)
        requires
            an * bd <= bn * ad,
            bn * cd <= cn * bd,
    ;
    assert(an * cd <= cn * ad) by (nonlinear_arith)
        requires
            an * cd * bd <= cn * ad * bd,
            bd > 0,
    ;
}

/// `a <= b` and `b < c` give `a < c`, and `a < b` and `b <= c` give `a < c`, for fractions
/// with positive denominators.
proof fn lemma_frac_lt_trans(an: nat, ad: nat, bn: nat, bd: nat, cn: nat, cd: nat)
    requires
        ad > 0,
        bd > 0,
        cd > 0,
        an * bd <= bn * ad,
        bn * cd <= cn * bd,
        an * bd < bn * ad || bn * cd < cn * bd,
    ensures
        an * cd < cn * ad,
{
    assert(an * cd * bd < cn * ad * bd) by (nonlinear_arith)
        requires
            an * bd <= bn * ad,
            bn * cd <= cn * bd,
            an * bd < bn * ad || bn * cd < cn * bd,
            ad > 0,
            cd > 0,
    ;
    assert(an * cd < cn * ad) by (nonlinear_arith)
        requires
            an * cd * bd < cn * ad * bd,
            bd > 0,
    ;
}

/// The decimal exponent of `2^q` is `k` when `q` lies between the ends of the brackets of
/// `10^k` and `10^(k + 1)`.
pub proof fn lemma_pow2_decimal_exponent(k: int, q: int)
    requires
        -324 <= k <= 292,
        (k * 217706 - 116) < q * 65536,
        q * 65536 <= ((k + 1) * 217706 - 116),
    ensures
        decimal_exponent_of(k, pow2_num(q), pow2_den(q)),
{
    lemma_brackets(k);
    lemma_brackets(k + 1);
    let t0 = pow2_below(k);
    let t1 = pow2_below(k + 1);
    assert(t0 < q <= t1);
    lemma_pow_fracs_positive(t0 + 1, k);
    lemma_pow_fracs_positive(t1, k + 1);
    lemma_pow_fracs_positive(q, 0);
    lemma_pow2_frac_monotonic(t0 + 1, q);
    lemma_pow2_frac_monotonic(q, t1);
    lemma_frac_le_trans(
        pow10_num(k),
        pow10_den(k),
        pow2_num(t0 + 1),
        pow2_den(t0 + 1),
        pow2_num(q),
        pow2_den(q),
    );
    lemma_frac_lt_trans(
        pow2_num(q),
        pow2_den(q),
        pow2_num(t1),
        pow2_den(t1),
        pow10_num(k + 1),
        pow10_den(k + 1),
    );
}

/// The decimal exponent of `3/4 * 2^q` is `k` when `q` lies between the ends of the
/// brackets of `10^k` and `10^(k + 1)`.
pub proof fn lemma_pow2_decimal_exponent_irregular(k: int, q: int)
    requires
        -324 <= k <= 292,
        (k * 217705 + 26970) < q * 65536,
        q * 65536 <= ((k + 1) * 217705 + 26970),
    ensures
        decimal_exponent_of(k, 3 * pow2_num(q), 4 * pow2_den(q)),
{
    lemma_brackets(k);
    lemma_brackets(k + 1);
    let u0 = pow2_below_irregular(k);
    let u1 = pow2_below_irregular(k + 1);
    assert(u0 < q <= u1);
    lemma_pow_fracs_positive(u0 + 1, k);
    lemma_pow_fracs_positive(u1, k + 1);
    lemma_pow_fracs_positive(q, 0);
    lemma_pow2_frac_monotonic(u0 + 1, q);
    lemma_pow2_frac_monotonic(q, u1);
    let (a, b) = (pow2_num(u0 + 1), pow2_den(u0 + 1));
    let (c, d) = (pow2_num(q), pow2_den(q));
    let (e, f) = (pow2_num(u1), pow2_den(u1));
    assert((3 * a) * (4 * d) <= (3 * c) * (4 * b)) by (nonlinear_arith)
        requires
            a * d <= c * b,
    ;
    assert((3 * c) * (4 * f) <= (3 * e) * (4 * d)) by (nonlinear_arith)
        requires
            c * f <= e * d,
    ;
    lemma_frac_le_trans(pow10_num(k), pow10_den(k), 3 * a, 4 * b, 3 * c, 4 * d);
    lemma_frac_lt_trans(3 * c, 4 * d, 3 * e, 4 * f, pow10_num(k + 1), pow10_den(k + 1));
}

/// `e = floor(log2(10^j))`, the exponent of the power of two at or below `10^j`.
pub open spec fn floor_log2_pow10(j: int) -> int {
    if j == 0 {
        0
    } else {
        pow2_below(j)
    }
}

/// `2^(a + b) == 2^a * 2^b` for `b >= 0`, over the fractions of the powers of two.
pub proof fn lemma_pow2_frac_shift(a: int, b: int)
    requires
        b >= 0,
    ensures
        pow2_num(a + b) * pow2_den(a) == pow2_num(a) * pow2(b as nat) * pow2_den(a + b),
{
    let p = pow2(b as nat);
    if a >= 0 {
        lemma_pow2_adds(a as nat, b as nat);
        let (x, y) = (pow2((a + b) as nat), pow2(a as nat));
        assert(x * 1 == y * p * 1) by (nonlinear_arith)
            requires
                x == y * p,
        ;
    } else if a + b >= 0 {
        lemma_pow2_adds((a + b) as nat, (-a) as nat);
        let (x, y) = (pow2((a + b) as nat), pow2((-a) as nat));
        assert(x * y == 1 * p * 1) by (nonlinear_arith)
            requires
                p == x * y,
        ;
    } else {
        lemma_pow2_adds((-(a + b)) as nat, b as nat);
        let (x, y) = (pow2((-(a + b)) as nat), pow2((-a) as nat));
        assert(1 * y == 1 * p * x) by (nonlinear_arith)
            requires
                y == x * p,
        ;
    }
}

/// `v * (1 - 2^-54) - 2^-10 < m < v * (1 + 2^-53) + 2^-10` for `v = vn / vd`: `m` lies in
/// the rounding interval `[v - v / 2^54, v + v / 2^53]` of a power of two `v`, up to
/// `1 / 1024`.
pub open spec fn near_power_of_two_interval(m: int, vn: int, vd: int) -> bool {
    &&& vn * 0x3F_FFFF_FFFF_FFFF < (m * 0x40_0000_0000_0000 + 0x1000_0000_0000) * vd
    &&& m * 0x20_0000_0000_0000 * vd < vn * 0x20_0000_0000_0001 + 0x800_0000_0000 * vd
}

/// The rounding decisions for a power of two, read in exact arithmetic: `phi = m * s + r`
/// estimates `x = xn / xd` within one, the lower candidate `m` is taken only when
/// `r < phi / 2^54` and the upper `m + 1` only when `s - r <= phi / 2^53`; then the
/// candidate taken lies near the rounding interval of `x / s`.
#[verifier::rlimit(60)]
pub proof fn lemma_power_of_two_candidate(
    phi: int,
    m: int,
    r: int,
    s: int,
    xn: int,
    xd: int,
    up: bool,
    down: bool,
    m_up: int,
)
    requires
        s >= 2048,
        xd > 0,
        phi > 0x20_0000_0000_0000,
        phi == m * s + r,
        0 <= r < s,
        (phi - 1) * xd <= xn <= (phi + 1) * xd,
        down ==> r * 0x40_0000_0000_0000 < phi,
        up ==> (s - r) * 0x20_0000_0000_0000 <= phi,
        m_up == if up {
            m + 1
        } else {
            m
        },
        up || down,
    ensures
        near_power_of_two_interval(m_up, xn, xd * s),
{
    let p54: int = 0x40_0000_0000_0000;
    let p53: int = 0x20_0000_0000_0000;
    assert(xn > 0) by (nonlinear_arith)
        requires
            (phi - 1) * xd <= xn,
            phi > 1,
            xd > 0,
    ;
    if up {
        assert(m_up * s == phi + s - r) by (nonlinear_arith)
            requires
                m_up == m + 1,
                phi == m * s + r,
        ;
        assert(xn * (p54 - 1) < (m_up * p54 + 0x1000_0000_0000) * (xd * s)) by (nonlinear_arith)
            requires
                m_up * s >= phi + 1,
                xn <= (phi + 1) * xd,
                xn > 0,
                xd > 0,
                s > 0,
                p54 == 0x40_0000_0000_0000,
        ;
        assert(m_up * s * p53 <= phi * (p53 + 1)) by (nonlinear_arith)
            requires
                m_up * s == phi + s - r,
                (s - r) * p53 <= phi,
        ;
        assert(m_up * p53 * (xd * s) < xn * (p53 + 1) + 0x800_0000_0000 * (xd * s))
            by (nonlinear_arith)
            requires
                m_up * s * p53 <= phi * (p53 + 1),
                (phi - 1) * xd <= xn,
                xd > 0,
                s >= 2048,
                p53 == 0x20_0000_0000_0000,
        ;
    } else {
        assert(m_up * s == phi - r) by (nonlinear_arith)
            requires
                m_up == m,
                phi == m * s + r,
        ;
        assert(xn * (p54 - 1) < (m_up * p54 + 0x1000_0000_0000) * (xd * s)) by (nonlinear_arith)
            requires
                m_up * s == phi - r,
                r * p54 < phi,
                xn <= (phi + 1) * xd,
                xd > 0,
                s >= 2048,
                p54 == 0x40_0000_0000_0000,
        ;
        assert(m_up * p53 * (xd * s) < xn * (p53 + 1) + 0x800_0000_0000 * (xd * s))
            by (nonlinear_arith)
            requires
                m_up * s <= phi,
                (phi - 1) * xd <= xn,
                xd > 0,
                s >= 2048,
                phi > p53,
                p53 == 0x20_0000_0000_0000,
        ;
    }
}

/// A pair of inequalities homogeneous in `(n, d)` carries over to any `(n2, d2)` that
/// names the same fraction.
pub proof fn lemma_near_interval_same_fraction(m: int, n: int, d: int, n2: int, d2: int)
    requires
        d > 0,
        d2 > 0,
        n * d2 == n2 * d,
        near_power_of_two_interval(m, n, d),
    ensures
        near_power_of_two_interval(m, n2, d2),
{
    let a: int = 0x3F_FFFF_FFFF_FFFF;
    let b: int = m * 0x40_0000_0000_0000 + 0x1000_0000_0000;
    let c: int = m * 0x20_0000_0000_0000;
    let e: int = 0x20_0000_0000_0001;
    let f: int = 0x800_0000_0000;
    assert(n2 * a < b * d2) by (nonlinear_arith)
        requires
            n * a < b * d,
            n * d2 == n2 * d,
            d > 0,
            d2 > 0,
    ;
    assert(c * d2 < n2 * e + f * d2) by (nonlinear_arith)
        requires
            c * d < n * e + f * d,
            n * d2 == n2 * d,
            d > 0,
            d2 > 0,
    ;
}

/// `(c - 1/2) * w - 2^-62 < m < (c + 1/2) * w + 2^-62` for `w = wn / wd`: `m` lies in the
/// rounding interval of `c * w`, half a step `w` to either side, up to `2^-62`.
pub open spec fn near_rounding_interval(m: int, c: int, wn: int, wd: int) -> bool {
    &&& (2 * c - 1) * wn * 0x4000_0000_0000_0000 - 2 * wd < 2 * m * wd * 0x4000_0000_0000_0000
    &&& 2 * m * wd * 0x4000_0000_0000_0000 < (2 * c + 1) * wn * 0x4000_0000_0000_0000 + 2 * wd
}

/// The candidate the rounding flags pick, against the scaled value `y = m * 2^73 + dot * 2^9
/// + rho` whose fraction bits are `dot`: the upper candidate `m + 1` is taken only when
/// `half + dot >= 2^64`, the lower `m` only when `dot < half`; either lies within
/// `half * 2^9` of `y`.
pub proof fn lemma_candidate_bounds(
    y: int,
    m: int,
    dot: int,
    rho: int,
    half: int,
    up: bool,
    down: bool,
    m_up: int,
)
    requires
        y == m * 0x200_0000_0000_0000_0000 + dot * 512 + rho,
        0 <= rho < 512,
        0 <= dot < 0x1_0000_0000_0000_0000,
        half >= 0,
        up ==> half + dot >= 0x1_0000_0000_0000_0000,
        down ==> half > dot,
        m_up == if up {
            m + 1
        } else {
            m
        },
        up || down,
    ensures
        y - half * 512 < m_up * 0x200_0000_0000_0000_0000,
        m_up * 0x200_0000_0000_0000_0000 <= y + half * 512,
{
}

/// The candidate against the exact value: `y` is `cb * p / 2^64` rounded down, `half` is
/// `p / 2^64 / g` rounded down plus at most one, and `p` is `x = xn / xd` rounded up; then
/// `m_up * 2^73` lies within `2^11` of the interval `(cb * x / 2^64) +- (2^9 * x / 2^64 / g)`.
#[verifier::rlimit(60)]
pub proof fn lemma_candidate_near(
    y: int,
    half: int,
    m_up: int,
    cb: int,
    p: int,
    hi: int,
    hf: int,
    g: int,
    xn: int,
    xd: int,
)
    requires
        xd > 0,
        xn > 0,
        0 <= cb < 0x1_0000_0000_0000_0000,
        2 <= g <= 16,
        y * 0x1_0000_0000_0000_0000 <= cb * p,
        cb * p < (y + 1) * 0x1_0000_0000_0000_0000,
        hi * 0x1_0000_0000_0000_0000 <= p,
        p < (hi + 1) * 0x1_0000_0000_0000_0000,
        xn <= p * xd,
        p * xd <= xn + xd,
        hf * g <= hi,
        hi < (hf + 1) * g,
        hf <= half <= hf + 1,
        y - half * 512 < m_up * 0x200_0000_0000_0000_0000,
        m_up * 0x200_0000_0000_0000_0000 <= y + half * 512,
    ensures
        (cb * g - 512) * xn - 0x800 * (xd * 0x1_0000_0000_0000_0000 * g) < m_up
            * 0x200_0000_0000_0000_0000 * (xd * 0x1_0000_0000_0000_0000 * g),
        m_up * 0x200_0000_0000_0000_0000 * (xd * 0x1_0000_0000_0000_0000 * g) < (cb * g + 512)
            * xn + 0x800 * (xd * 0x1_0000_0000_0000_0000 * g),
{
    let b: int = 0x1_0000_0000_0000_0000;
    let d = xd * b * g;
    assert(y * b * xd <= cb * xn + cb * xd) by (nonlinear_arith)
        requires
            y * b <= cb * p,
            p * xd <= xn + xd,
            xd > 0,
            cb >= 0,
    ;
    assert(cb * xn < (y + 1) * b * xd) by (nonlinear_arith)
        requires
            cb * p < (y + 1) * b,
            xn <= p * xd,
            xd > 0,
            cb >= 0,
    ;
    assert(hf * g * b * xd <= xn + xd) by (nonlinear_arith)
        requires
            hf * g <= hi,
            hi * b <= p,
            p * xd <= xn + xd,
            xd > 0,
            b > 0,
    ;
    assert(xn < (hf + 1) * g * b * xd) by (nonlinear_arith)
        requires
            hi < (hf + 1) * g,
            p < (hi + 1) * b,
            xn <= p * xd,
            xd > 0,
            b > 0,
    ;
    assert(half * g * b * xd <= xn + xd + g * b * xd) by (nonlinear_arith)
        requires
            half <= hf + 1,
            hf * g * b * xd <= xn + xd,
            g > 0,
            b > 0,
            xd > 0,
    ;
    assert(half * g * b * xd > xn - g * b * xd) by (nonlinear_arith)
        requires
            half >= hf,
            xn < (hf + 1) * g * b * xd,
            g > 0,
            b > 0,
            xd > 0,
    ;
    assert(d > 0) by (nonlinear_arith)
        requires
            d == xd * b * g,
            xd > 0,
            g > 0,
            b > 0,
    ;
    assert(m_up * 0x200_0000_0000_0000_0000 * d > y * d - half * 512 * d) by (nonlinear_arith)
        requires
            y - half * 512 < m_up * 0x200_0000_0000_0000_0000,
            d > 0,
    ;
    assert(m_up * 0x200_0000_0000_0000_0000 * d <= y * d + half * 512 * d) by (nonlinear_arith)
        requires
            m_up * 0x200_0000_0000_0000_0000 <= y + half * 512,
            d > 0,
    ;
    assert(y * d > g * cb * xn - g * b * xd && y * d < g * cb * xn + g * b * xd)
        by (nonlinear_arith)
        requires
            y * b * xd <= cb * xn + cb * xd,
            cb * xn < (y + 1) * b * xd,
            cb < b,
            d == xd * b * g,
            g > 0,
            xd > 0,
    ;
    assert(half * 512 * d <= 512 * xn + 512 * xd + 512 * g * b * xd && half * 512 * d > 512 * xn
        - 512 * g * b * xd) by (nonlinear_arith)
        requires
            half * g * b * xd <= xn + xd + g * b * xd,
            half * g * b * xd > xn - g * b * xd,
            d == xd * b * g,
    ;
    assert(0x800 * d >= 513 * g * b * xd + 512 * xd) by (nonlinear_arith)
        requires
            d == xd * b * g,
            g >= 2,
            xd > 0,
            b == 0x1_0000_0000_0000_0000int,
    ;
    let mm = m_up * 0x200_0000_0000_0000_0000;
    assert((cb * g - 512) * xn - 0x800 * d < mm * d && mm * d < (cb * g + 512) * xn + 0x800 * d)
        by (nonlinear_arith)
        requires
            mm * d > y * d - half * 512 * d,
            mm * d <= y * d + half * 512 * d,
            y * d > g * cb * xn - g * b * xd,
            y * d < g * cb * xn + g * b * xd,
            half * 512 * d <= 512 * xn + 512 * xd + 512 * g * b * xd,
            half * 512 * d > 512 * xn - 512 * g * b * xd,
            0x800 * d >= 513 * g * b * xd + 512 * xd,
            xd > 0,
    ;
}

/// The bounds of `lemma_candidate_near` carried over to the value's own fraction: with
/// `cb * g == 1024 * c` and `x == w * g * 2^127`, they say that `m_up` lies in the rounding
/// interval of `c * w`, up to `2^-62`.
#[verifier::rlimit(60)]
pub proof fn lemma_candidate_interval(
    m_up: int,
    c: int,
    cb: int,
    g: int,
    xn: int,
    xd: int,
    wn: int,
    wd: int,
)
    requires
        xd > 0,
        wd > 0,
        g > 0,
        cb * g == 1024 * c,
        xn * wd == wn * xd * g * 0x8000_0000_0000_0000_0000_0000_0000_0000,
        (cb * g - 512) * xn - 0x800 * (xd * 0x1_0000_0000_0000_0000 * g) < m_up
            * 0x200_0000_0000_0000_0000 * (xd * 0x1_0000_0000_0000_0000 * g),
        m_up * 0x200_0000_0000_0000_0000 * (xd * 0x1_0000_0000_0000_0000 * g) < (cb * g + 512)
            * xn + 0x800 * (xd * 0x1_0000_0000_0000_0000 * g),
    ensures
        near_rounding_interval(m_up, c, wn, wd),
{
    let f = xd * g;
    let b: int = 0x1_0000_0000_0000_0000;
    let t: int = 0x8000_0000_0000_0000;
    assert((cb * g - 512) * xn * wd == (2 * c - 1) * wn * f * b * t * 512) by (nonlinear_arith)
        requires
            cb * g == 1024 * c,
            xn * wd == wn * xd * g * 0x8000_0000_0000_0000_0000_0000_0000_0000,
            f == xd * g,
            b == 0x1_0000_0000_0000_0000int,
            t == 0x8000_0000_0000_0000int,
    ;
    assert((cb * g + 512) * xn * wd == (2 * c + 1) * wn * f * b * t * 512) by (nonlinear_arith)
        requires
            cb * g == 1024 * c,
            xn * wd == wn * xd * g * 0x8000_0000_0000_0000_0000_0000_0000_0000,
            f == xd * g,
            b == 0x1_0000_0000_0000_0000int,
            t == 0x8000_0000_0000_0000int,
    ;
    let big = xd * b * g;
    assert(f * b == big) by (nonlinear_arith)
        requires
            f == xd * g,
            big == xd * b * g,
    ;
    assert(big > 0) by (nonlinear_arith)
        requires
            big == xd * b * g,
            xd > 0,
            g > 0,
            b > 0,
    ;
    let mm = m_up * 0x200_0000_0000_0000_0000;
    let lo = (cb * g - 512) * xn;
    let hi = (cb * g + 512) * xn;
    lemma_mul_lt(lo - 0x800 * big, mm * big, wd);
    lemma_mul_lt(mm * big, hi + 0x800 * big, wd);
    let lhs = (2 * c - 1) * wn * t * 512 - 0x800 * wd;
    let mid = mm * wd;
    let rhs = (2 * c + 1) * wn * t * 512 + 0x800 * wd;
    let k1 = (2 * c - 1) * wn * t * 512;
    let k2 = (2 * c + 1) * wn * t * 512;
    assert(lo * wd == k1 * big) by (nonlinear_arith)
        requires
            lo * wd == (2 * c - 1) * wn * f * b * t * 512,
            f * b == big,
            k1 == (2 * c - 1) * wn * t * 512,
    ;
    assert(hi * wd == k2 * big) by (nonlinear_arith)
        requires
            hi * wd == (2 * c + 1) * wn * f * b * t * 512,
            f * b == big,
            k2 == (2 * c + 1) * wn * t * 512,
    ;
    assert((lo - 0x800 * big) * wd == lo * wd - 0x800 * big * wd) by (nonlinear_arith);
    assert((hi + 0x800 * big) * wd == hi * wd + 0x800 * big * wd) by (nonlinear_arith);
    assert(lhs * big == k1 * big - 0x800 * big * wd) by (nonlinear_arith)
        requires
            lhs == k1 - 0x800 * wd,
    ;
    assert(rhs * big == k2 * big + 0x800 * big * wd) by (nonlinear_arith)
        requires
            rhs == k2 + 0x800 * wd,
    ;
    assert((mm * big) * wd == mid * big) by (nonlinear_arith)
        requires
            mid == mm * wd,
    ;
    lemma_mul_cancel_lt(lhs, mid, big);
    lemma_mul_cancel_lt(mid, rhs, big);
    assert(near_rounding_interval(m_up, c, wn, wd)) by (nonlinear_arith)
        requires
            lhs < mid,
            mid < rhs,
            lhs == (2 * c - 1) * wn * t * 512 - 0x800 * wd,
            mid == m_up * 0x200_0000_0000_0000_0000 * wd,
            rhs == (2 * c + 1) * wn * t * 512 + 0x800 * wd,
            t == 0x8000_0000_0000_0000int,
    ;
}

/// `a < b` scales by a positive factor.
proof fn lemma_mul_lt(a: int, b: int, z: int)
    requires
        a < b,
        z > 0,
    ensures
        a * z < b * z,
{
    assert(a * z < b * z) by (nonlinear_arith)
        requires
            a < b,
            z > 0,
    ;
}

/// A positive factor cancels from both sides of `<`.
proof fn lemma_mul_cancel_lt(a: int, b: int, z: int)
    requires
        a * z < b * z,
        z > 0,
    ensures
        a < b,
{
    assert(a < b) by (nonlinear_arith)
        requires
            a * z < b * z,
            z > 0,
    ;
}

/// `(c - a/4) * w - 2^-34 < m < (c + 1/2) * w + 2^-34` for `w = wn / wd`: `m` lies in the
/// rounding interval of `c * w`, which reaches `a/4` of a step `w` below it and half a step
/// above it, up to `2^-34`.
pub open spec fn near_rounding_interval32(m: int, c: int, a: int, wn: int, wd: int) -> bool {
    &&& (4 * c - a) * wn * 0x4_0000_0000 - 4 * wd < 4 * m * wd * 0x4_0000_0000
    &&& 4 * m * wd * 0x4_0000_0000 < (4 * c + 2) * wn * 0x4_0000_0000 + 4 * wd
}

/// The candidate of the `f32` computation against the exact value: `y` is `cb * p / 2^64`
/// rounded down, `half` is `p / gg` rounded down plus at most one, `low` is `half` or half of
/// it (`a` is 2 or 1), `p` is `x = xn / xd` rounded up, and `m * 2^36` lies in
/// `(y - low, y + half]`; with `cb * gg == 2 * c * 2^64` and `x == w * gg * 2^35`, `m` lies
/// in the rounding interval of `c * w`, up to `2^-34`.
#[verifier::rlimit(60)]
pub proof fn lemma_candidate_near32(
    m: int,
    c: int,
    a: int,
    y: int,
    half: int,
    low: int,
    cb: int,
    p: int,
    hf: int,
    gg: int,
    xn: int,
    xd: int,
    wn: int,
    wd: int,
)
    requires
        xd > 0,
        xn > 0,
        wd > 0,
        gg >= 2,
        0 <= cb < 0x1_0000_0000_0000_0000,
        cb * gg == 2 * c * 0x1_0000_0000_0000_0000,
        xn * wd == wn * xd * gg * 0x8_0000_0000,
        y * 0x1_0000_0000_0000_0000 <= cb * p,
        cb * p < (y + 1) * 0x1_0000_0000_0000_0000,
        hf * gg <= p,
        p < (hf + 1) * gg,
        xn <= p * xd,
        p * xd <= xn + xd,
        hf <= half <= hf + 1,
        a == 1 || a == 2,
        a == 2 ==> low == half,
        a == 1 ==> 2 * low <= half < 2 * low + 2,
        y - low < m * 0x10_0000_0000,
        m * 0x10_0000_0000 <= y + half,
    ensures
        near_rounding_interval32(m, c, a, wn, wd),
{
    let b: int = 0x1_0000_0000_0000_0000;
    let dn = xd * gg;
    assert(dn > 0 && xd <= dn) by (nonlinear_arith)
        requires
            dn == xd * gg,
            xd > 0,
            gg >= 2,
    ;
    assert(y * dn * b < (2 * c * xn + dn) * b) by (nonlinear_arith)
        requires
            y * b <= cb * p,
            p * xd <= xn + xd,
            cb * gg == 2 * c * b,
            cb < b,
            cb >= 0,
            dn == xd * gg,
            xd > 0,
            gg > 0,
            b > 0,
    ;
    assert((y + 1) * dn * b > 2 * c * xn * b) by (nonlinear_arith)
        requires
            cb * p < (y + 1) * b,
            xn <= p * xd,
            cb * gg == 2 * c * b,
            cb >= 0,
            dn == xd * gg,
            xd > 0,
            gg > 0,
    ;
    assert(y * dn < 2 * c * xn + dn && (y + 1) * dn > 2 * c * xn) by (nonlinear_arith)
        requires
            y * dn * b < (2 * c * xn + dn) * b,
            (y + 1) * dn * b > 2 * c * xn * b,
            b > 0,
    ;
    assert(hf * dn <= xn + xd && (hf + 1) * dn > xn) by (nonlinear_arith)
        requires
            hf * gg <= p,
            p < (hf + 1) * gg,
            xn <= p * xd,
            p * xd <= xn + xd,
            dn == xd * gg,
            xd > 0,
    ;
    assert(half * dn <= xn + xd + dn && half * dn > xn - dn) by (nonlinear_arith)
        requires
            hf * dn <= xn + xd,
            (hf + 1) * dn > xn,
            hf <= half <= hf + 1,
            dn > 0,
    ;
    let mm = m * 0x10_0000_0000;
    assert(mm * dn > y * dn - low * dn && mm * dn <= y * dn + half * dn) by (nonlinear_arith)
        requires
            y - low < mm,
            mm <= y + half,
            dn > 0,
    ;
    if a == 1 {
        assert(2 * low * dn <= half * dn) by (nonlinear_arith)
            requires
                2 * low <= half,
                dn > 0,
        ;
    }
    assert(2 * mm * dn > (4 * c - a) * xn - 8 * dn && 2 * mm * dn < (4 * c + 2) * xn + 8 * dn)
        by (nonlinear_arith)
        requires
            mm * dn > y * dn - low * dn,
            mm * dn <= y * dn + half * dn,
            y * dn < 2 * c * xn + dn,
            (y + 1) * dn > 2 * c * xn,
            half * dn <= xn + xd + dn,
            xd <= dn,
            a == 2 ==> low == half,
            a == 1 ==> 2 * low * dn <= half * dn,
            a == 1 || a == 2,
    ;
    let s: int = 0x8_0000_0000;
    let lhs = (4 * c - a) * wn * s - 8 * wd;
    let mid = 2 * mm * wd;
    let rhs = (4 * c + 2) * wn * s + 8 * wd;
    lemma_mul_lt((4 * c - a) * xn - 8 * dn, 2 * mm * dn, wd);
    lemma_mul_lt(2 * mm * dn, (4 * c + 2) * xn + 8 * dn, wd);
    let u = xn * wd;
    assert(u == wn * dn * s) by (nonlinear_arith)
        requires
            u == xn * wd,
            xn * wd == wn * xd * gg * 0x8_0000_0000,
            dn == xd * gg,
            s == 0x8_0000_0000int,
    ;
    let f = 4 * c - a;
    let f2 = 4 * c + 2;
    assert((f * xn - 8 * dn) * wd == f * u - 8 * dn * wd) by (nonlinear_arith)
        requires
            u == xn * wd,
    ;
    assert(f * u == f * wn * s * dn) by (nonlinear_arith)
        requires
            u == wn * dn * s,
    ;
    assert(f * wn * s * dn - 8 * dn * wd == lhs * dn) by (nonlinear_arith)
        requires
            lhs == f * wn * s - 8 * wd,
    ;
    assert((f2 * xn + 8 * dn) * wd == f2 * u + 8 * dn * wd) by (nonlinear_arith)
        requires
            u == xn * wd,
    ;
    assert(f2 * u == f2 * wn * s * dn) by (nonlinear_arith)
        requires
            u == wn * dn * s,
    ;
    assert(f2 * wn * s * dn + 8 * dn * wd == rhs * dn) by (nonlinear_arith)
        requires
            rhs == f2 * wn * s + 8 * wd,
    ;
    assert((2 * mm * dn) * wd == mid * dn) by (nonlinear_arith)
        requires
            mid == 2 * mm * wd,
    ;
    lemma_mul_cancel_lt(lhs, mid, dn);
    lemma_mul_cancel_lt(mid, rhs, dn);
    assert(near_rounding_interval32(m, c, a, wn, wd)) by (nonlinear_arith)
        requires
            lhs < mid,
            mid < rhs,
            lhs == (4 * c - a) * wn * s - 8 * wd,
            mid == 2 * mm * wd,
            mm == m * 0x10_0000_0000,
            rhs == (4 * c + 2) * wn * s + 8 * wd,
            s == 0x8_0000_0000int,
    ;
}

/// `10 * c * w - 1/2 - 2^-50 <= n <= 10 * c * w + 1/2 + 2^-50` for `w = wn / wd`: `n` is
/// `10 * c * w` rounded to an integer, up to `2^-50`.
pub open spec fn near_nearest_digit(n: int, c: int, wn: int, wd: int) -> bool {
    &&& (20 * c * wn - wd) * 0x4_0000_0000_0000 - 2 * wd <= 2 * n * wd * 0x4_0000_0000_0000
    &&& 2 * n * wd * 0x4_0000_0000_0000 <= (20 * c * wn + wd) * 0x4_0000_0000_0000 + 2 * wd
}

/// The significand extended by one rounded digit, against the exact value: `y = m * 2^73 +
/// dot * 2^9 + rho` is `cb * p / 2^64` rounded down, `p` is `x = xn / xd` rounded up, and
/// `one` is `10 * dot / 2^64` rounded to within a half; with `cb * g == 1024 * c` and
/// `x == w * g * 2^127`, `10 * m + one` is `10 * c * w` rounded, up to `2^-50`.
#[verifier::rlimit(60)]
pub proof fn lemma_digit_near(
    y: int,
    m: int,
    dot: int,
    rho: int,
    one: int,
    cb: int,
    p: int,
    g: int,
    xn: int,
    xd: int,
    c: int,
    wn: int,
    wd: int,
)
    requires
        xd > 0,
        wd > 0,
        g > 0,
        0 <= cb < 0x1_0000_0000_0000_0000,
        cb * g == 1024 * c,
        xn * wd == wn * xd * g * 0x8000_0000_0000_0000_0000_0000_0000_0000,
        y == m * 0x200_0000_0000_0000_0000 + dot * 512 + rho,
        0 <= rho < 512,
        one * 0x1_0000_0000_0000_0000 <= 10 * dot + 0x8000_0000_0000_0006,
        10 * dot <= one * 0x1_0000_0000_0000_0000 + 0x8000_0000_0000_0006,
        y * 0x1_0000_0000_0000_0000 <= cb * p,
        cb * p < (y + 1) * 0x1_0000_0000_0000_0000,
        xn <= p * xd,
        p * xd <= xn + xd,
    ensures
        near_nearest_digit(10 * m + one, c, wn, wd),
{
    let b: int = 0x1_0000_0000_0000_0000;
    let t: int = 0x8000_0000_0000_0000_0000_0000_0000_0000;
    let f = xd * g * b;
    assert(f > 0) by (nonlinear_arith)
        requires
            f == xd * g * b,
            xd > 0,
            g > 0,
            b > 0,
    ;
    assert(y * f <= 1024 * c * xn + g * cb * xd && 1024 * c * xn < y * f + f)
        by (nonlinear_arith)
        requires
            y * b <= cb * p,
            cb * p < (y + 1) * b,
            xn <= p * xd,
            p * xd <= xn + xd,
            cb * g == 1024 * c,
            f == xd * g * b,
            xd > 0,
            g > 0,
            cb >= 0,
    ;
    assert(g * cb * xd < f) by (nonlinear_arith)
        requires
            cb < b,
            f == xd * g * b,
            xd > 0,
            g > 0,
    ;
    let u = xn * wd;
    assert(u == wn * f * 0x8000_0000_0000_0000) by (nonlinear_arith)
        requires
            u == xn * wd,
            xn * wd == wn * xd * g * 0x8000_0000_0000_0000_0000_0000_0000_0000,
            f == xd * g * b,
            b == 0x1_0000_0000_0000_0000int,
    ;
    let v = c * wn * 0x200_0000_0000_0000_0000;
    lemma_mul_lt(y * f - f, 1024 * c * xn, wd);
    lemma_mul_lt(1024 * c * xn, y * f + f, wd);
    assert((y * f - f) * wd == (y * wd - wd) * f && (y * f + f) * wd == (y * wd + wd) * f && (1024
        * c * xn) * wd == v * f) by (nonlinear_arith)
        requires
            u == xn * wd,
            u == wn * f * 0x8000_0000_0000_0000,
            v == c * wn * 0x200_0000_0000_0000_0000,
    ;
    lemma_mul_cancel_lt(y * wd - wd, v, f);
    lemma_mul_cancel_lt(v, y * wd + wd, f);
    let n = 10 * m + one;
    assert(n * 0x200_0000_0000_0000_0000 <= 10 * y + 0x100_0000_0000_0000_0000 + 0x1000
        && 10 * y - 0x100_0000_0000_0000_0000 - 0x2000 <= n * 0x200_0000_0000_0000_0000)
        by (nonlinear_arith)
        requires
            n == 10 * m + one,
            y == m * 0x200_0000_0000_0000_0000 + dot * 512 + rho,
            0 <= rho < 512,
            one * 0x1_0000_0000_0000_0000 <= 10 * dot + 0x8000_0000_0000_0006,
            10 * dot <= one * 0x1_0000_0000_0000_0000 + 0x8000_0000_0000_0006,
    ;
    let lo = (20 * c * wn - wd) * 0x4_0000_0000_0000 - 2 * wd;
    let hi = (20 * c * wn + wd) * 0x4_0000_0000_0000 + 2 * wd;
    let mid = 2 * n * wd * 0x4_0000_0000_0000;
    assert(lo * 0x80_0000 <= mid * 0x80_0000 && mid * 0x80_0000 <= hi * 0x80_0000)
        by (nonlinear_arith)
        requires
            n * 0x200_0000_0000_0000_0000 <= 10 * y + 0x100_0000_0000_0000_0000 + 0x1000,
            10 * y - 0x100_0000_0000_0000_0000 - 0x2000 <= n * 0x200_0000_0000_0000_0000,
            y * wd - wd < v,
            v < y * wd + wd,
            v == c * wn * 0x200_0000_0000_0000_0000,
            wd > 0,
            lo == (20 * c * wn - wd) * 0x4_0000_0000_0000 - 2 * wd,
            hi == (20 * c * wn + wd) * 0x4_0000_0000_0000 + 2 * wd,
            mid == 2 * n * wd * 0x4_0000_0000_0000,
    ;
}

/// `10 * c * w - 1/2 - 2^-30 <= n <= 10 * c * w + 1/2 + 2^-30` for `w = wn / wd`: `n` is
/// `10 * c * w` rounded to an integer, up to `2^-30`.
pub open spec fn near_nearest_digit32(n: int, c: int, wn: int, wd: int) -> bool {
    &&& (20 * c * wn - wd) * 0x4000_0000 - 2 * wd <= 2 * n * wd * 0x4000_0000
    &&& 2 * n * wd * 0x4000_0000 <= (20 * c * wn + wd) * 0x4000_0000 + 2 * wd
}

/// The `f32` significand extended by one rounded digit, against the exact value:
/// `y = m * 2^36 + dot` is `cb * p / 2^64` rounded down, `p` is `x = xn / xd` rounded up,
/// and `digit` is `10 * dot / 2^36` rounded to within a half; with `cb * gg == 2 * c * 2^64`
/// and `x == w * gg * 2^35`, `10 * m + digit` is `10 * c * w` rounded, up to `2^-30`.
#[verifier::rlimit(60)]
pub proof fn lemma_digit_near32(
    y: int,
    m: int,
    dot: int,
    digit: int,
    cb: int,
    p: int,
    gg: int,
    xn: int,
    xd: int,
    c: int,
    wn: int,
    wd: int,
)
    requires
        xd > 0,
        wd > 0,
        gg >= 2,
        0 <= cb < 0x1_0000_0000_0000_0000,
        cb * gg == 2 * c * 0x1_0000_0000_0000_0000,
        xn * wd == wn * xd * gg * 0x8_0000_0000,
        y == m * 0x10_0000_0000 + dot,
        0 <= dot < 0x10_0000_0000,
        digit * 0x8_0000_0000 <= 5 * dot + 0x4_0000_0000 + 8,
        5 * dot < digit * 0x8_0000_0000 + 0x4_0000_0000 + 7,
        y * 0x1_0000_0000_0000_0000 <= cb * p,
        cb * p < (y + 1) * 0x1_0000_0000_0000_0000,
        xn <= p * xd,
        p * xd <= xn + xd,
    ensures
        near_nearest_digit32(10 * m + digit, c, wn, wd),
{
    let b: int = 0x1_0000_0000_0000_0000;
    let dn = xd * gg;
    assert(dn > 0) by (nonlinear_arith)
        requires
            dn == xd * gg,
            xd > 0,
            gg >= 2,
    ;
    assert(y * dn * b < (2 * c * xn + dn) * b) by (nonlinear_arith)
        requires
            y * b <= cb * p,
            p * xd <= xn + xd,
            cb * gg == 2 * c * b,
            cb < b,
            cb >= 0,
            dn == xd * gg,
            xd > 0,
            gg > 0,
            b > 0,
    ;
    assert((y + 1) * dn * b > 2 * c * xn * b) by (nonlinear_arith)
        requires
            cb * p < (y + 1) * b,
            xn <= p * xd,
            cb * gg == 2 * c * b,
            cb >= 0,
            dn == xd * gg,
            xd > 0,
            gg > 0,
    ;
    assert(y * dn - dn < 2 * c * xn && 2 * c * xn < y * dn + dn) by (nonlinear_arith)
        requires
            y * dn * b < (2 * c * xn + dn) * b,
            (y + 1) * dn * b > 2 * c * xn * b,
            b > 0,
    ;
    let u = xn * wd;
    assert(u == wn * dn * 0x8_0000_0000) by (nonlinear_arith)
        requires
            u == xn * wd,
            xn * wd == wn * xd * gg * 0x8_0000_0000,
            dn == xd * gg,
    ;
    let v = c * wn * 0x10_0000_0000;
    lemma_mul_lt(y * dn - dn, 2 * c * xn, wd);
    lemma_mul_lt(2 * c * xn, y * dn + dn, wd);
    assert((y * dn - dn) * wd == (y * wd - wd) * dn && (y * dn + dn) * wd == (y * wd + wd) * dn
        && (2 * c * xn) * wd == v * dn) by (nonlinear_arith)
        requires
            u == xn * wd,
            u == wn * dn * 0x8_0000_0000,
            v == c * wn * 0x10_0000_0000,
    ;
    lemma_mul_cancel_lt(y * wd - wd, v, dn);
    lemma_mul_cancel_lt(v, y * wd + wd, dn);
    let n = 10 * m + digit;
    assert(n * 0x10_0000_0000 <= 10 * y + 0x8_0000_0000 + 16 && 10 * y - 0x8_0000_0000 - 14
        < n * 0x10_0000_0000) by (nonlinear_arith)
        requires
            n == 10 * m + digit,
            y == m * 0x10_0000_0000 + dot,
            digit * 0x8_0000_0000 <= 5 * dot + 0x4_0000_0000 + 8,
            5 * dot < digit * 0x8_0000_0000 + 0x4_0000_0000 + 7,
    ;
    let lo = (20 * c * wn - wd) * 0x4000_0000 - 2 * wd;
    let hi = (20 * c * wn + wd) * 0x4000_0000 + 2 * wd;
    let mid = 2 * n * wd * 0x4000_0000;
    assert(lo * 64 <= mid * 64 && mid * 64 <= hi * 64) by (nonlinear_arith)
        requires
            n * 0x10_0000_0000 <= 10 * y + 0x8_0000_0000 + 16,
            10 * y - 0x8_0000_0000 - 14 < n * 0x10_0000_0000,
            y * wd - wd < v,
            v < y * wd + wd,
            v == c * wn * 0x10_0000_0000,
            wd > 0,
            lo == (20 * c * wn - wd) * 0x4000_0000 - 2 * wd,
            hi == (20 * c * wn + wd) * 0x4000_0000 + 2 * wd,
            mid == 2 * n * wd * 0x4000_0000,
    ;
}

/// `m < (c - 1/2) * w + 2^-62` and `m + 1 > (c + 1/2) * w - 2^-62` for `w = wn / wd`: neither
/// `m` nor `m + 1` lies in the rounding interval of `c * w`, up to `2^-62`.
pub open spec fn outside_rounding_interval(m: int, c: int, wn: int, wd: int) -> bool {
    &&& 2 * m * wd * 0x4000_0000_0000_0000 < (2 * c - 1) * wn * 0x4000_0000_0000_0000 + 2 * wd
    &&& (2 * c + 1) * wn * 0x4000_0000_0000_0000 - 2 * wd < 2 * (m + 1) * wd
        * 0x4000_0000_0000_0000
}

/// The gap the rounding flags leave: when neither candidate is taken, `m * 2^73` lies at or
/// below `y - half * 2^9` and `(m + 1) * 2^73` above `y + half * 2^9`; against the exact value
/// (as in `lemma_candidate_near`), both lie outside the interval, up to `2^11`.
#[verifier::rlimit(60)]
pub proof fn lemma_gap_near(
    y: int,
    m: int,
    dot: int,
    rho: int,
    half: int,
    cb: int,
    p: int,
    hi: int,
    hf: int,
    g: int,
    xn: int,
    xd: int,
)
    requires
        xd > 0,
        xn > 0,
        0 <= cb < 0x1_0000_0000_0000_0000,
        2 <= g <= 16,
        y == m * 0x200_0000_0000_0000_0000 + dot * 512 + rho,
        0 <= rho < 512,
        half <= dot,
        half + dot < 0x1_0000_0000_0000_0000,
        y * 0x1_0000_0000_0000_0000 <= cb * p,
        cb * p < (y + 1) * 0x1_0000_0000_0000_0000,
        hi * 0x1_0000_0000_0000_0000 <= p,
        p < (hi + 1) * 0x1_0000_0000_0000_0000,
        xn <= p * xd,
        p * xd <= xn + xd,
        hf * g <= hi,
        hi < (hf + 1) * g,
        hf <= half <= hf + 1,
    ensures
        m * 0x200_0000_0000_0000_0000 * (xd * 0x1_0000_0000_0000_0000 * g) < (cb * g - 512) * xn
            + 0x800 * (xd * 0x1_0000_0000_0000_0000 * g),
        (cb * g + 512) * xn - 0x800 * (xd * 0x1_0000_0000_0000_0000 * g) < (m + 1)
            * 0x200_0000_0000_0000_0000 * (xd * 0x1_0000_0000_0000_0000 * g),
{
    let b: int = 0x1_0000_0000_0000_0000;
    let d = xd * b * g;
    let m1 = m * 0x200_0000_0000_0000_0000;
    let m2 = (m + 1) * 0x200_0000_0000_0000_0000;
    assert(m1 <= y - half * 512 && m2 > y + half * 512);
    assert(d > 0) by (nonlinear_arith)
        requires
            d == xd * b * g,
            xd > 0,
            g > 0,
            b > 0,
    ;
    assert(y * b * xd <= cb * xn + cb * xd) by (nonlinear_arith)
        requires
            y * b <= cb * p,
            p * xd <= xn + xd,
            xd > 0,
            cb >= 0,
    ;
    assert(cb * xn < (y + 1) * b * xd) by (nonlinear_arith)
        requires
            cb * p < (y + 1) * b,
            xn <= p * xd,
            xd > 0,
            cb >= 0,
    ;
    assert(hf * g * b * xd <= xn + xd) by (nonlinear_arith)
        requires
            hf * g <= hi,
            hi * b <= p,
            p * xd <= xn + xd,
            xd > 0,
            b > 0,
    ;
    assert(xn < (hf + 1) * g * b * xd) by (nonlinear_arith)
        requires
            hi < (hf + 1) * g,
            p < (hi + 1) * b,
            xn <= p * xd,
            xd > 0,
            b > 0,
    ;
    assert(half * g * b * xd <= xn + xd + g * b * xd) by (nonlinear_arith)
        requires
            half <= hf + 1,
            hf * g * b * xd <= xn + xd,
            g > 0,
            b > 0,
            xd > 0,
    ;
    assert(half * g * b * xd > xn - g * b * xd) by (nonlinear_arith)
        requires
            half >= hf,
            xn < (hf + 1) * g * b * xd,
            g > 0,
            b > 0,
            xd > 0,
    ;
    assert(m1 * d <= y * d - half * 512 * d && m2 * d > y * d + half * 512 * d)
        by (nonlinear_arith)
        requires
            m1 <= y - half * 512,
            m2 > y + half * 512,
            d > 0,
    ;
    assert(y * d > g * cb * xn - g * b * xd && y * d < g * cb * xn + g * b * xd)
        by (nonlinear_arith)
        requires
            y * b * xd <= cb * xn + cb * xd,
            cb * xn < (y + 1) * b * xd,
            cb < b,
            d == xd * b * g,
            g > 0,
            xd > 0,
    ;
    assert(half * 512 * d <= 512 * xn + 512 * xd + 512 * g * b * xd && half * 512 * d > 512 * xn
        - 512 * g * b * xd) by (nonlinear_arith)
        requires
            half * g * b * xd <= xn + xd + g * b * xd,
            half * g * b * xd > xn - g * b * xd,
            d == xd * b * g,
    ;
    assert(0x800 * d >= 513 * g * b * xd + 512 * xd) by (nonlinear_arith)
        requires
            d == xd * b * g,
            g >= 2,
            xd > 0,
            b == 0x1_0000_0000_0000_0000int,
    ;
    assert(m1 * d < (cb * g - 512) * xn + 0x800 * d && (cb * g + 512) * xn - 0x800 * d < m2 * d)
        by (nonlinear_arith)
        requires
            m1 * d <= y * d - half * 512 * d,
            m2 * d > y * d + half * 512 * d,
            y * d > g * cb * xn - g * b * xd,
            y * d < g * cb * xn + g * b * xd,
            half * 512 * d <= 512 * xn + 512 * xd + 512 * g * b * xd,
            half * 512 * d > 512 * xn - 512 * g * b * xd,
            0x800 * d >= 513 * g * b * xd + 512 * xd,
            xd > 0,
    ;
}

/// A bound over the scaled value `x = xn / xd` carried over to `w = wn / wd`, with
/// `cb * g == 1024 * c` and `x == w * g * 2^127`: `mm * D < (cb * g + 512 * s) * xn + a * D`
/// for `D = xd * 2^64 * g` gives `mm * wd < (2 * c + s) * wn * 2^72 + a * wd`, and likewise
/// with the inequality reversed.
#[verifier::rlimit(60)]
pub proof fn lemma_scaled_to_w(
    mm: int,
    s: int,
    a: int,
    below: bool,
    c: int,
    cb: int,
    g: int,
    xn: int,
    xd: int,
    wn: int,
    wd: int,
)
    requires
        xd > 0,
        wd > 0,
        g > 0,
        cb * g == 1024 * c,
        xn * wd == wn * xd * g * 0x8000_0000_0000_0000_0000_0000_0000_0000,
        below ==> mm * (xd * 0x1_0000_0000_0000_0000 * g) < (cb * g + 512 * s) * xn + a * (xd
            * 0x1_0000_0000_0000_0000 * g),
        !below ==> (cb * g + 512 * s) * xn + a * (xd * 0x1_0000_0000_0000_0000 * g) < mm * (xd
            * 0x1_0000_0000_0000_0000 * g),
    ensures
        below ==> mm * wd < (2 * c + s) * wn * 0x100_0000_0000_0000_0000 + a * wd,
        !below ==> (2 * c + s) * wn * 0x100_0000_0000_0000_0000 + a * wd < mm * wd,
{
    let big = xd * 0x1_0000_0000_0000_0000 * g;
    assert(big > 0) by (nonlinear_arith)
        requires
            big == xd * 0x1_0000_0000_0000_0000 * g,
            xd > 0,
            g > 0,
    ;
    let e = (cb * g + 512 * s) * xn + a * big;
    let r = (2 * c + s) * wn * 0x100_0000_0000_0000_0000 + a * wd;
    let u = xn * wd;
    assert(u == wn * big * 0x8000_0000_0000_0000) by (nonlinear_arith)
        requires
            u == xn * wd,
            xn * wd == wn * xd * g * 0x8000_0000_0000_0000_0000_0000_0000_0000,
            big == xd * 0x1_0000_0000_0000_0000 * g,
    ;
    assert(e * wd == (2 * c + s) * 512 * u + a * big * wd) by (nonlinear_arith)
        requires
            e == (cb * g + 512 * s) * xn + a * big,
            cb * g == 1024 * c,
            u == xn * wd,
    ;
    assert((2 * c + s) * 512 * u == (2 * c + s) * wn * 0x100_0000_0000_0000_0000 * big)
        by (nonlinear_arith)
        requires
            u == wn * big * 0x8000_0000_0000_0000,
    ;
    assert(e * wd == r * big) by (nonlinear_arith)
        requires
            e * wd == (2 * c + s) * 512 * u + a * big * wd,
            (2 * c + s) * 512 * u == (2 * c + s) * wn * 0x100_0000_0000_0000_0000 * big,
            r == (2 * c + s) * wn * 0x100_0000_0000_0000_0000 + a * wd,
    ;
    assert((mm * big) * wd == (mm * wd) * big) by (nonlinear_arith);
    if below {
        lemma_mul_lt(mm * big, e, wd);
        lemma_mul_cancel_lt(mm * wd, r, big);
    } else {
        lemma_mul_lt(e, mm * big, wd);
        lemma_mul_cancel_lt(r, mm * wd, big);
    }
}

/// `m < (c - a/4) * w + 2^-34` and `m + 1 > (c + 1/2) * w - 2^-34` for `w = wn / wd`: no
/// integer up to `m + 1` lies in the rounding interval of `c * w` that
/// `near_rounding_interval32` describes, up to `2^-34`.
pub open spec fn outside_rounding_interval32(m: int, c: int, a: int, wn: int, wd: int) -> bool {
    &&& 4 * m * wd * 0x4_0000_0000 < (4 * c - a) * wn * 0x4_0000_0000 + 4 * wd
    &&& (4 * c + 2) * wn * 0x4_0000_0000 - 4 * wd < 4 * (m + 1) * wd * 0x4_0000_0000
}

/// The gap of the `f32` computation: with the value as in `lemma_candidate_near32`, when
/// `m * 2^36 <= y - low` and `y + half < (m + 1) * 2^36`, neither `m` nor `m + 1` lies in
/// the rounding interval of `c * w`, up to `2^-34`.
#[verifier::rlimit(60)]
pub proof fn lemma_gap_near32(
    m: int,
    c: int,
    a: int,
    y: int,
    half: int,
    low: int,
    cb: int,
    p: int,
    hf: int,
    gg: int,
    xn: int,
    xd: int,
    wn: int,
    wd: int,
)
    requires
        xd > 0,
        xn > 0,
        wd > 0,
        gg >= 2,
        0 <= cb < 0x1_0000_0000_0000_0000,
        cb * gg == 2 * c * 0x1_0000_0000_0000_0000,
        xn * wd == wn * xd * gg * 0x8_0000_0000,
        y * 0x1_0000_0000_0000_0000 <= cb * p,
        cb * p < (y + 1) * 0x1_0000_0000_0000_0000,
        hf * gg <= p,
        p < (hf + 1) * gg,
        xn <= p * xd,
        p * xd <= xn + xd,
        hf <= half <= hf + 1,
        a == 1 || a == 2,
        a == 2 ==> low == half,
        a == 1 ==> 2 * low <= half < 2 * low + 2,
        m * 0x10_0000_0000 <= y - low,
        y + half < (m + 1) * 0x10_0000_0000,
    ensures
        outside_rounding_interval32(m, c, a, wn, wd),
{
    let b: int = 0x1_0000_0000_0000_0000;
    let dn = xd * gg;
    assert(dn > 0 && xd <= dn) by (nonlinear_arith)
        requires
            dn == xd * gg,
            xd > 0,
            gg >= 2,
    ;
    assert(y * dn * b < (2 * c * xn + dn) * b) by (nonlinear_arith)
        requires
            y * b <= cb * p,
            p * xd <= xn + xd,
            cb * gg == 2 * c * b,
            cb < b,
            cb >= 0,
            dn == xd * gg,
            xd > 0,
            gg > 0,
            b > 0,
    ;
    assert((y + 1) * dn * b > 2 * c * xn * b) by (nonlinear_arith)
        requires
            cb * p < (y + 1) * b,
            xn <= p * xd,
            cb * gg == 2 * c * b,
            cb >= 0,
            dn == xd * gg,
            xd > 0,
            gg > 0,
    ;
    assert(y * dn < 2 * c * xn + dn && (y + 1) * dn > 2 * c * xn) by (nonlinear_arith)
        requires
            y * dn * b < (2 * c * xn + dn) * b,
            (y + 1) * dn * b > 2 * c * xn * b,
            b > 0,
    ;
    assert(hf * dn <= xn + xd && (hf + 1) * dn > xn) by (nonlinear_arith)
        requires
            hf * gg <= p,
            p < (hf + 1) * gg,
            xn <= p * xd,
            p * xd <= xn + xd,
            dn == xd * gg,
            xd > 0,
    ;
    assert(half * dn > xn - dn) by (nonlinear_arith)
        requires
            (hf + 1) * dn > xn,
            hf <= half,
            dn > 0,
    ;
    let m1 = m * 0x10_0000_0000;
    let m2 = (m + 1) * 0x10_0000_0000;
    assert(m1 * dn <= y * dn - low * dn && m2 * dn > y * dn + half * dn) by (nonlinear_arith)
        requires
            m1 <= y - low,
            y + half < m2,
            dn > 0,
    ;
    if a == 1 {
        assert(2 * low * dn > half * dn - 2 * dn) by (nonlinear_arith)
            requires
                half < 2 * low + 2,
                dn > 0,
        ;
    }
    assert(2 * m1 * dn < (4 * c - a) * xn + 5 * dn && 2 * m2 * dn > (4 * c + 2) * xn - 4 * dn)
        by (nonlinear_arith)
        requires
            m1 * dn <= y * dn - low * dn,
            m2 * dn > y * dn + half * dn,
            y * dn < 2 * c * xn + dn,
            (y + 1) * dn > 2 * c * xn,
            half * dn > xn - dn,
            a == 2 ==> low == half,
            a == 1 ==> 2 * low * dn > half * dn - 2 * dn,
            a == 1 || a == 2,
    ;
    let s: int = 0x8_0000_0000;
    let u = xn * wd;
    assert(u == wn * dn * s) by (nonlinear_arith)
        requires
            u == xn * wd,
            xn * wd == wn * xd * gg * 0x8_0000_0000,
            dn == xd * gg,
            s == 0x8_0000_0000int,
    ;
    let r1 = (4 * c - a) * wn * s + 5 * wd;
    let r2 = (4 * c + 2) * wn * s - 4 * wd;
    lemma_mul_lt(2 * m1 * dn, (4 * c - a) * xn + 5 * dn, wd);
    lemma_mul_lt((4 * c + 2) * xn - 4 * dn, 2 * m2 * dn, wd);
    let f1 = 4 * c - a;
    let f2 = 4 * c + 2;
    assert((f1 * xn + 5 * dn) * wd == f1 * u + 5 * dn * wd) by (nonlinear_arith)
        requires
            u == xn * wd,
    ;
    assert(f1 * u == f1 * wn * s * dn) by (nonlinear_arith)
        requires
            u == wn * dn * s,
    ;
    assert(f1 * wn * s * dn + 5 * dn * wd == r1 * dn) by (nonlinear_arith)
        requires
            r1 == f1 * wn * s + 5 * wd,
    ;
    assert((f2 * xn - 4 * dn) * wd == f2 * u - 4 * dn * wd) by (nonlinear_arith)
        requires
            u == xn * wd,
    ;
    assert(f2 * u == f2 * wn * s * dn) by (nonlinear_arith)
        requires
            u == wn * dn * s,
    ;
    assert(f2 * wn * s * dn - 4 * dn * wd == r2 * dn) by (nonlinear_arith)
        requires
            r2 == f2 * wn * s - 4 * wd,
    ;
    assert((2 * m1 * dn) * wd == (2 * m1 * wd) * dn && (2 * m2 * dn) * wd == (2 * m2 * wd) * dn)
        by (nonlinear_arith);
    lemma_mul_cancel_lt(2 * m1 * wd, r1, dn);
    lemma_mul_cancel_lt(r2, 2 * m2 * wd, dn);
    assert(outside_rounding_interval32(m, c, a, wn, wd)) by (nonlinear_arith)
        requires
            2 * m1 * wd < r1,
            r2 < 2 * m2 * wd,
            r1 == (4 * c - a) * wn * s + 5 * wd,
            r2 == (4 * c + 2) * wn * s - 4 * wd,
            m1 == m * 0x10_0000_0000,
            m2 == (m + 1) * 0x10_0000_0000,
            s == 0x8_0000_0000int,
            wd > 0,
    ;
}

} // verus!
