use vstd::prelude::*;
use vstd::arithmetic::div_mod::*;
use vstd::arithmetic::power::*;
use crate::reference::reduce::{
    q, mont_r, mont_r_inv, lemma_constants, lemma_cong_add, lemma_cong_sub, lemma_cong_mul, lemma_cong_mod,
};
use crate::reference::ntt::{
    ZETAS, zeta_spec, fqmul_spec, ntt_layers, ntt_spec, invntt_spec, fwd_len, is_layer_len, canonical,
};
use crate::reference::correctness::{lemma_pair_nf, pair_nf0, pair_nf1, lemma_group};
use crate::reference::poly::{
    negacyclic_term, negacyclic_sum, poly_mul_spec, poly_basemul_spec, basemul_pair_spec,
};
use crate::reference::polyvec::{poly_tomont_spec, poly_frommont_spec};

verus! {

// ---------------------------------------------------------------------------
// The zetas as residues.

/// The zeta at position `k` of the table taken out of the Montgomery domain:
/// the root of unity that the layer multiplies by.
pub open spec fn tz(k: int) -> int {
    (zeta_spec(k) * mont_r_inv()) % q()
}

/// `2^m` for the levels of the transform.
pub open spec fn lvl_pow(m: int) -> int {
    if m <= 0 { 1 } else if m == 1 { 2 } else if m == 2 { 4 } else if m == 3 { 8 }
    else if m == 4 { 16 } else if m == 5 { 32 } else if m == 6 { 64 } else { 128 }
}

/// After `m` forward layers, block `c` holds the residue of the input modulo
/// `X^(256 / 2^m) - level_w(m, c)`.
pub open spec fn level_w(m: int, c: int) -> int {
    if m == 0 {
        -1
    } else {
        let k = lvl_pow(m - 1) + c / 2;
        if c % 2 == 0 { tz(k) } else { -tz(k) }
    }
}

/// The residue of a negated residue.
proof fn lemma_neg_mod(t: int)
    requires
        0 < t < q(),
    ensures
        (-t) % q() == q() - t,
{
    lemma_constants();
    lemma_mod_add_multiples_vanish(-t, q());
    lemma_small_mod((q() - t) as nat, q() as nat);
}

/// The first zeta squares to -1.
proof fn lemma_tz_one()
    ensures
        (tz(1) * tz(1)) % q() == q() - 1,
{
    reveal(zeta_spec);
    assert(ZETAS@[1] == 6775496934782943343i128);
    assert(zeta_spec(1) == 6775496934782943343);
        assert((6775496934782943343int * 1271475462236046151int) % 13835058055275898369int == 11655298081238708516int);
        assert(tz(1) == 11655298081238708516);
    assert((11655298081238708516int * 11655298081238708516int) % 13835058055275898369int == 13835058055275898368int);
}


proof fn lemma_tz_square_1()
    ensures
        (tz(2) * tz(2)) % q() == tz(1),
        (tz(3) * tz(3)) % q() == (q() - tz(1)) % q(),
{
    reveal(zeta_spec);
    assert(ZETAS@[1] == 6775496934782943343i128);
    assert(zeta_spec(1) == 6775496934782943343);
    assert((6775496934782943343int * 1271475462236046151int) % 13835058055275898369int == 11655298081238708516int);
    assert(tz(1) == 11655298081238708516);
    assert(ZETAS@[2] == -2009471431703899311i128);
    assert(zeta_spec(2) == 11825586623571999058);
    assert((11825586623571999058int * 1271475462236046151int) % 13835058055275898369int == 11198384195777238080int);
    assert(tz(2) == 11198384195777238080);
    assert(ZETAS@[3] == -1328232688688911287i128);
    assert(zeta_spec(3) == 12506825366586987082);
    assert((12506825366586987082int * 1271475462236046151int) % 13835058055275898369int == 3794862782127314492int);
    assert(tz(3) == 3794862782127314492);
    assert((11198384195777238080int * 11198384195777238080int) % 13835058055275898369int == 11655298081238708516int);
    assert((3794862782127314492int * 3794862782127314492int) % 13835058055275898369int == 2179759974037189853int);
    assert((13835058055275898369int - 11655298081238708516int) % 13835058055275898369int == 2179759974037189853int);
}

proof fn lemma_tz_square_2()
    ensures
        (tz(4) * tz(4)) % q() == tz(2),
        (tz(5) * tz(5)) % q() == (q() - tz(2)) % q(),
{
    reveal(zeta_spec);
    assert(ZETAS@[2] == -2009471431703899311i128);
    assert(zeta_spec(2) == 11825586623571999058);
    assert((11825586623571999058int * 1271475462236046151int) % 13835058055275898369int == 11198384195777238080int);
    assert(tz(2) == 11198384195777238080);
    assert(ZETAS@[4] == -1002745027200374681i128);
    assert(zeta_spec(4) == 12832313028075523688);
    assert((12832313028075523688int * 1271475462236046151int) % 13835058055275898369int == 11007090054857144789int);
    assert(tz(4) == 11007090054857144789);
    assert(ZETAS@[5] == 4065724602514105411i128);
    assert(zeta_spec(5) == 4065724602514105411);
    assert((4065724602514105411int * 1271475462236046151int) % 13835058055275898369int == 8728204848951994944int);
    assert(tz(5) == 8728204848951994944);
    assert((11007090054857144789int * 11007090054857144789int) % 13835058055275898369int == 11198384195777238080int);
    assert((8728204848951994944int * 8728204848951994944int) % 13835058055275898369int == 2636673859498660289int);
    assert((13835058055275898369int - 11198384195777238080int) % 13835058055275898369int == 2636673859498660289int);
}

proof fn lemma_tz_square_3()
    ensures
        (tz(6) * tz(6)) % q() == tz(3),
        (tz(7) * tz(7)) % q() == (q() - tz(3)) % q(),
{
    reveal(zeta_spec);
    assert(ZETAS@[3] == -1328232688688911287i128);
    assert(zeta_spec(3) == 12506825366586987082);
    assert((12506825366586987082int * 1271475462236046151int) % 13835058055275898369int == 3794862782127314492int);
    assert(tz(3) == 3794862782127314492);
    assert(ZETAS@[6] == 2919437507106638680i128);
    assert(zeta_spec(6) == 2919437507106638680);
    assert((2919437507106638680int * 1271475462236046151int) % 13835058055275898369int == 2592678573773003030int);
    assert(tz(6) == 2592678573773003030);
    assert(ZETAS@[7] == 319924368957496599i128);
    assert(zeta_spec(7) == 319924368957496599);
    assert((319924368957496599int * 1271475462236046151int) % 13835058055275898369int == 13006037351299521078int);
    assert(tz(7) == 13006037351299521078);
    assert((2592678573773003030int * 2592678573773003030int) % 13835058055275898369int == 3794862782127314492int);
    assert((13006037351299521078int * 13006037351299521078int) % 13835058055275898369int == 10040195273148583877int);
    assert((13835058055275898369int - 3794862782127314492int) % 13835058055275898369int == 10040195273148583877int);
}

proof fn lemma_tz_square_4()
    ensures
        (tz(8) * tz(8)) % q() == tz(4),
        (tz(9) * tz(9)) % q() == (q() - tz(4)) % q(),
{
    reveal(zeta_spec);
    assert(ZETAS@[4] == -1002745027200374681i128);
    assert(zeta_spec(4) == 12832313028075523688);
    assert((12832313028075523688int * 1271475462236046151int) % 13835058055275898369int == 11007090054857144789int);
    assert(tz(4) == 11007090054857144789);
    assert(ZETAS@[8] == -4937142386123851074i128);
    assert(zeta_spec(8) == 8897915669152047295);
    assert((8897915669152047295int * 1271475462236046151int) % 13835058055275898369int == 4248786952943976168int);
    assert(tz(8) == 4248786952943976168);
    assert(ZETAS@[9] == -2046042962112950785i128);
    assert(zeta_spec(9) == 11789015093162947584);
    assert((11789015093162947584int * 1271475462236046151int) % 13835058055275898369int == 7076995871951516137int);
    assert(tz(9) == 7076995871951516137);
    assert((4248786952943976168int * 4248786952943976168int) % 13835058055275898369int == 11007090054857144789int);
    assert((7076995871951516137int * 7076995871951516137int) % 13835058055275898369int == 2827968000418753580int);
    assert((13835058055275898369int - 11007090054857144789int) % 13835058055275898369int == 2827968000418753580int);
}

proof fn lemma_tz_square_5()
    ensures
        (tz(10) * tz(10)) % q() == tz(5),
        (tz(11) * tz(11)) % q() == (q() - tz(5)) % q(),
{
    reveal(zeta_spec);
    assert(ZETAS@[5] == 4065724602514105411i128);
    assert(zeta_spec(5) == 4065724602514105411);
    assert((4065724602514105411int * 1271475462236046151int) % 13835058055275898369int == 8728204848951994944int);
    assert(tz(5) == 8728204848951994944);
    assert(ZETAS@[10] == -5404690735978538842i128);
    assert(zeta_spec(10) == 8430367319297359527);
    assert((8430367319297359527int * 1271475462236046151int) % 13835058055275898369int == 6459974068071384300int);
    assert(tz(10) == 6459974068071384300);
    assert(ZETAS@[11] == -6606314814373324632i128);
    assert(zeta_spec(11) == 7228743240902573737);
    assert((7228743240902573737int * 1271475462236046151int) % 13835058055275898369int == 12609285230644600802int);
    assert(tz(11) == 12609285230644600802);
    assert((6459974068071384300int * 6459974068071384300int) % 13835058055275898369int == 8728204848951994944int);
    assert((12609285230644600802int * 12609285230644600802int) % 13835058055275898369int == 5106853206323903425int);
    assert((13835058055275898369int - 8728204848951994944int) % 13835058055275898369int == 5106853206323903425int);
}

proof fn lemma_tz_square_6()
    ensures
        (tz(12) * tz(12)) % q() == tz(6),
        (tz(13) * tz(13)) % q() == (q() - tz(6)) % q(),
{
    reveal(zeta_spec);
    assert(ZETAS@[6] == 2919437507106638680i128);
    assert(zeta_spec(6) == 2919437507106638680);
    assert((2919437507106638680int * 1271475462236046151int) % 13835058055275898369int == 2592678573773003030int);
    assert(tz(6) == 2592678573773003030);
    assert(ZETAS@[12] == -270228248844215435i128);
    assert(zeta_spec(12) == 13564829806431682934);
    assert((13564829806431682934int * 1271475462236046151int) % 13835058055275898369int == 10735077760468075450int);
    assert(tz(12) == 10735077760468075450);
    assert(ZETAS@[13] == 6129907493117356186i128);
    assert(zeta_spec(13) == 6129907493117356186);
    assert((6129907493117356186int * 1271475462236046151int) % 13835058055275898369int == 2589341281242001932int);
    assert(tz(13) == 2589341281242001932);
    assert((10735077760468075450int * 10735077760468075450int) % 13835058055275898369int == 2592678573773003030int);
    assert((2589341281242001932int * 2589341281242001932int) % 13835058055275898369int == 11242379481502895339int);
    assert((13835058055275898369int - 2592678573773003030int) % 13835058055275898369int == 11242379481502895339int);
}

proof fn lemma_tz_square_7()
    ensures
        (tz(14) * tz(14)) % q() == tz(7),
        (tz(15) * tz(15)) % q() == (q() - tz(7)) % q(),
{
    reveal(zeta_spec);
    assert(ZETAS@[7] == 319924368957496599i128);
    assert(zeta_spec(7) == 319924368957496599);
    assert((319924368957496599int * 1271475462236046151int) % 13835058055275898369int == 13006037351299521078int);
    assert(tz(7) == 13006037351299521078);
    assert(ZETAS@[14] == -4960492513664852441i128);
    assert(zeta_spec(14) == 8874565541611045928);
    assert((8874565541611045928int * 1271475462236046151int) % 13835058055275898369int == 7665276800164198690int);
    assert(tz(14) == 7665276800164198690);
    assert(ZETAS@[15] == -6059951808049000894i128);
    assert(zeta_spec(15) == 7775106247226897475);
    assert((7775106247226897475int * 1271475462236046151int) % 13835058055275898369int == 5842027908889296858int);
    assert(tz(15) == 5842027908889296858);
    assert((7665276800164198690int * 7665276800164198690int) % 13835058055275898369int == 13006037351299521078int);
    assert((5842027908889296858int * 5842027908889296858int) % 13835058055275898369int == 829020703976377291int);
    assert((13835058055275898369int - 13006037351299521078int) % 13835058055275898369int == 829020703976377291int);
}

proof fn lemma_tz_square_8()
    ensures
        (tz(16) * tz(16)) % q() == tz(8),
        (tz(17) * tz(17)) % q() == (q() - tz(8)) % q(),
{
    reveal(zeta_spec);
    assert(ZETAS@[8] == -4937142386123851074i128);
    assert(zeta_spec(8) == 8897915669152047295);
    assert((8897915669152047295int * 1271475462236046151int) % 13835058055275898369int == 4248786952943976168int);
    assert(tz(8) == 4248786952943976168);
    assert(ZETAS@[16] == 3669995908980165229i128);
    assert(zeta_spec(16) == 3669995908980165229);
    assert((3669995908980165229int * 1271475462236046151int) % 13835058055275898369int == 755523837185270316int);
    assert(tz(16) == 755523837185270316);
    assert(ZETAS@[17] == 4471194529861214218i128);
    assert(zeta_spec(17) == 4471194529861214218);
    assert((4471194529861214218int * 1271475462236046151int) % 13835058055275898369int == 5648375458740624662int);
    assert(tz(17) == 5648375458740624662);
    assert((755523837185270316int * 755523837185270316int) % 13835058055275898369int == 4248786952943976168int);
    assert((5648375458740624662int * 5648375458740624662int) % 13835058055275898369int == 9586271102331922201int);
    assert((13835058055275898369int - 4248786952943976168int) % 13835058055275898369int == 9586271102331922201int);
}

proof fn lemma_tz_square_9()
    ensures
        (tz(18) * tz(18)) % q() == tz(9),
        (tz(19) * tz(19)) % q() == (q() - tz(9)) % q(),
{
    reveal(zeta_spec);
    assert(ZETAS@[9] == -2046042962112950785i128);
    assert(zeta_spec(9) == 11789015093162947584);
    assert((11789015093162947584int * 1271475462236046151int) % 13835058055275898369int == 7076995871951516137int);
    assert(tz(9) == 7076995871951516137);
    assert(ZETAS@[18] == -1275871039369993539i128);
    assert(zeta_spec(18) == 12559187015905904830);
    assert((12559187015905904830int * 1271475462236046151int) % 13835058055275898369int == 9877783804931391182int);
    assert(tz(18) == 9877783804931391182);
    assert(ZETAS@[19] == 4562826861878496655i128);
    assert(zeta_spec(19) == 4562826861878496655);
    assert((4562826861878496655int * 1271475462236046151int) % 13835058055275898369int == 154118298912854195int);
    assert(tz(19) == 154118298912854195);
    assert((9877783804931391182int * 9877783804931391182int) % 13835058055275898369int == 7076995871951516137int);
    assert((154118298912854195int * 154118298912854195int) % 13835058055275898369int == 6758062183324382232int);
    assert((13835058055275898369int - 7076995871951516137int) % 13835058055275898369int == 6758062183324382232int);
}

proof fn lemma_tz_square_10()
    ensures
        (tz(20) * tz(20)) % q() == tz(10),
        (tz(21) * tz(21)) % q() == (q() - tz(10)) % q(),
{
    reveal(zeta_spec);
    assert(ZETAS@[10] == -5404690735978538842i128);
    assert(zeta_spec(10) == 8430367319297359527);
    assert((8430367319297359527int * 1271475462236046151int) % 13835058055275898369int == 6459974068071384300int);
    assert(tz(10) == 6459974068071384300);
    assert(ZETAS@[20] == 2822996399665595795i128);
    assert(zeta_spec(20) == 2822996399665595795);
    assert((2822996399665595795int * 1271475462236046151int) % 13835058055275898369int == 3831968573694295713int);
    assert(tz(20) == 3831968573694295713);
    assert(ZETAS@[21] == 5082037695556247343i128);
    assert(zeta_spec(21) == 5082037695556247343);
    assert((5082037695556247343int * 1271475462236046151int) % 13835058055275898369int == 5701829701747105195int);
    assert(tz(21) == 5701829701747105195);
    assert((3831968573694295713int * 3831968573694295713int) % 13835058055275898369int == 6459974068071384300int);
    assert((5701829701747105195int * 5701829701747105195int) % 13835058055275898369int == 7375083987204514069int);
    assert((13835058055275898369int - 6459974068071384300int) % 13835058055275898369int == 7375083987204514069int);
}

proof fn lemma_tz_square_11()
    ensures
        (tz(22) * tz(22)) % q() == tz(11),
        (tz(23) * tz(23)) % q() == (q() - tz(11)) % q(),
{
    reveal(zeta_spec);
    assert(ZETAS@[11] == -6606314814373324632i128);
    assert(zeta_spec(11) == 7228743240902573737);
    assert((7228743240902573737int * 1271475462236046151int) % 13835058055275898369int == 12609285230644600802int);
    assert(tz(11) == 12609285230644600802);
    assert(ZETAS@[22] == 745738841633068290i128);
    assert(zeta_spec(22) == 745738841633068290);
    assert((745738841633068290int * 1271475462236046151int) % 13835058055275898369int == 363270275467216544int);
    assert(tz(22) == 363270275467216544);
    assert(ZETAS@[23] == 633169733644942350i128);
    assert(zeta_spec(23) == 633169733644942350);
    assert((633169733644942350int * 1271475462236046151int) % 13835058055275898369int == 8904401867091937847int);
    assert(tz(23) == 8904401867091937847);
    assert((363270275467216544int * 363270275467216544int) % 13835058055275898369int == 12609285230644600802int);
    assert((8904401867091937847int * 8904401867091937847int) % 13835058055275898369int == 1225772824631297567int);
    assert((13835058055275898369int - 12609285230644600802int) % 13835058055275898369int == 1225772824631297567int);
}

proof fn lemma_tz_square_12()
    ensures
        (tz(24) * tz(24)) % q() == tz(12),
        (tz(25) * tz(25)) % q() == (q() - tz(12)) % q(),
{
    reveal(zeta_spec);
    assert(ZETAS@[12] == -270228248844215435i128);
    assert(zeta_spec(12) == 13564829806431682934);
    assert((13564829806431682934int * 1271475462236046151int) % 13835058055275898369int == 10735077760468075450int);
    assert(tz(12) == 10735077760468075450);
    assert(ZETAS@[24] == 3458111977077273059i128);
    assert(zeta_spec(24) == 3458111977077273059);
    assert((3458111977077273059int * 1271475462236046151int) % 13835058055275898369int == 3891463871161646118int);
    assert(tz(24) == 3891463871161646118);
    assert(ZETAS@[25] == 4065489346010616149i128);
    assert(zeta_spec(25) == 4065489346010616149);
    assert((4065489346010616149int * 1271475462236046151int) % 13835058055275898369int == 322703490777996965int);
    assert(tz(25) == 322703490777996965);
    assert((3891463871161646118int * 3891463871161646118int) % 13835058055275898369int == 10735077760468075450int);
    assert((322703490777996965int * 322703490777996965int) % 13835058055275898369int == 3099980294807822919int);
    assert((13835058055275898369int - 10735077760468075450int) % 13835058055275898369int == 3099980294807822919int);
}

proof fn lemma_tz_square_13()
    ensures
        (tz(26) * tz(26)) % q() == tz(13),
        (tz(27) * tz(27)) % q() == (q() - tz(13)) % q(),
{
    reveal(zeta_spec);
    assert(ZETAS@[13] == 6129907493117356186i128);
    assert(zeta_spec(13) == 6129907493117356186);
    assert((6129907493117356186int * 1271475462236046151int) % 13835058055275898369int == 2589341281242001932int);
    assert(tz(13) == 2589341281242001932);
    assert(ZETAS@[26] == 6876880878865852470i128);
    assert(zeta_spec(26) == 6876880878865852470);
    assert((6876880878865852470int * 1271475462236046151int) % 13835058055275898369int == 3183288859315201448int);
    assert(tz(26) == 3183288859315201448);
    assert(ZETAS@[27] == -6806000428358751151i128);
    assert(zeta_spec(27) == 7029057626917147218);
    assert((7029057626917147218int * 1271475462236046151int) % 13835058055275898369int == 10309795339718104422int);
    assert(tz(27) == 10309795339718104422);
    assert((3183288859315201448int * 3183288859315201448int) % 13835058055275898369int == 2589341281242001932int);
    assert((10309795339718104422int * 10309795339718104422int) % 13835058055275898369int == 11245716774033896437int);
    assert((13835058055275898369int - 2589341281242001932int) % 13835058055275898369int == 11245716774033896437int);
}

proof fn lemma_tz_square_14()
    ensures
        (tz(28) * tz(28)) % q() == tz(14),
        (tz(29) * tz(29)) % q() == (q() - tz(14)) % q(),
{
    reveal(zeta_spec);
    assert(ZETAS@[14] == -4960492513664852441i128);
    assert(zeta_spec(14) == 8874565541611045928);
    assert((8874565541611045928int * 1271475462236046151int) % 13835058055275898369int == 7665276800164198690int);
    assert(tz(14) == 7665276800164198690);
    assert(ZETAS@[28] == -3410546557051774221i128);
    assert(zeta_spec(28) == 10424511498224124148);
    assert((10424511498224124148int * 1271475462236046151int) % 13835058055275898369int == 8457866482860861301int);
    assert(tz(28) == 8457866482860861301);
    assert(ZETAS@[29] == -2069297829992143500i128);
    assert(zeta_spec(29) == 11765760225283754869);
    assert((11765760225283754869int * 1271475462236046151int) % 13835058055275898369int == 12018738895312285940int);
    assert(tz(29) == 12018738895312285940);
    assert((8457866482860861301int * 8457866482860861301int) % 13835058055275898369int == 7665276800164198690int);
    assert((12018738895312285940int * 12018738895312285940int) % 13835058055275898369int == 6169781255111699679int);
    assert((13835058055275898369int - 7665276800164198690int) % 13835058055275898369int == 6169781255111699679int);
}

proof fn lemma_tz_square_15()
    ensures
        (tz(30) * tz(30)) % q() == tz(15),
        (tz(31) * tz(31)) % q() == (q() - tz(15)) % q(),
{
    reveal(zeta_spec);
    assert(ZETAS@[15] == -6059951808049000894i128);
    assert(zeta_spec(15) == 7775106247226897475);
    assert((7775106247226897475int * 1271475462236046151int) % 13835058055275898369int == 5842027908889296858int);
    assert(tz(15) == 5842027908889296858);
    assert(ZETAS@[30] == -5891018715525901177i128);
    assert(zeta_spec(30) == 7944039339749997192);
    assert((7944039339749997192int * 1271475462236046151int) % 13835058055275898369int == 791707172728401814int);
    assert(tz(30) == 791707172728401814);
    assert(ZETAS@[31] == 262987071806669675i128);
    assert(zeta_spec(31) == 262987071806669675);
    assert((262987071806669675int * 1271475462236046151int) % 13835058055275898369int == 4954728309812845082int);
    assert(tz(31) == 4954728309812845082);
    assert((791707172728401814int * 791707172728401814int) % 13835058055275898369int == 5842027908889296858int);
    assert((4954728309812845082int * 4954728309812845082int) % 13835058055275898369int == 7993030146386601511int);
    assert((13835058055275898369int - 5842027908889296858int) % 13835058055275898369int == 7993030146386601511int);
}

proof fn lemma_tz_square_16()
    ensures
        (tz(32) * tz(32)) % q() == tz(16),
        (tz(33) * tz(33)) % q() == (q() - tz(16)) % q(),
{
    reveal(zeta_spec);
    assert(ZETAS@[16] == 3669995908980165229i128);
    assert(zeta_spec(16) == 3669995908980165229);
    assert((3669995908980165229int * 1271475462236046151int) % 13835058055275898369int == 755523837185270316int);
    assert(tz(16) == 755523837185270316);
    assert(ZETAS@[32] == -4209832979942217088i128);
    assert(zeta_spec(32) == 9625225075333681281);
    assert((9625225075333681281int * 1271475462236046151int) % 13835058055275898369int == 6718638093991633654int);
    assert(tz(32) == 6718638093991633654);
    assert(ZETAS@[33] == -4853399977178133286i128);
    assert(zeta_spec(33) == 8981658078097765083);
    assert((8981658078097765083int * 1271475462236046151int) % 13835058055275898369int == 11587968471264831598int);
    assert(tz(33) == 11587968471264831598);
    assert((6718638093991633654int * 6718638093991633654int) % 13835058055275898369int == 755523837185270316int);
    assert((11587968471264831598int * 11587968471264831598int) % 13835058055275898369int == 13079534218090628053int);
    assert((13835058055275898369int - 755523837185270316int) % 13835058055275898369int == 13079534218090628053int);
}

proof fn lemma_tz_square_17()
    ensures
        (tz(34) * tz(34)) % q() == tz(17),
        (tz(35) * tz(35)) % q() == (q() - tz(17)) % q(),
{
    reveal(zeta_spec);
    assert(ZETAS@[17] == 4471194529861214218i128);
    assert(zeta_spec(17) == 4471194529861214218);
    assert((4471194529861214218int * 1271475462236046151int) % 13835058055275898369int == 5648375458740624662int);
    assert(tz(17) == 5648375458740624662);
    assert(ZETAS@[34] == -4469635722433500072i128);
    assert(zeta_spec(34) == 9365422332842398297);
    assert((9365422332842398297int * 1271475462236046151int) % 13835058055275898369int == 1106811970530137295int);
    assert(tz(34) == 1106811970530137295);
    assert(ZETAS@[35] == -2719828446725532201i128);
    assert(zeta_spec(35) == 11115229608550366168);
    assert((11115229608550366168int * 1271475462236046151int) % 13835058055275898369int == 566417125607785763int);
    assert(tz(35) == 566417125607785763);
    assert((1106811970530137295int * 1106811970530137295int) % 13835058055275898369int == 5648375458740624662int);
    assert((566417125607785763int * 566417125607785763int) % 13835058055275898369int == 8186682596535273707int);
    assert((13835058055275898369int - 5648375458740624662int) % 13835058055275898369int == 8186682596535273707int);
}

proof fn lemma_tz_square_18()
    ensures
        (tz(36) * tz(36)) % q() == tz(18),
        (tz(37) * tz(37)) % q() == (q() - tz(18)) % q(),
{
    reveal(zeta_spec);
    assert(ZETAS@[18] == -1275871039369993539i128);
    assert(zeta_spec(18) == 12559187015905904830);
    assert((12559187015905904830int * 1271475462236046151int) % 13835058055275898369int == 9877783804931391182int);
    assert(tz(18) == 9877783804931391182);
    assert(ZETAS@[36] == 2932733688436728947i128);
    assert(zeta_spec(36) == 2932733688436728947);
    assert((2932733688436728947int * 1271475462236046151int) % 13835058055275898369int == 8784683549341838899int);
    assert(tz(36) == 8784683549341838899);
    assert(ZETAS@[37] == 3225024695543939740i128);
    assert(zeta_spec(37) == 3225024695543939740);
    assert((3225024695543939740int * 1271475462236046151int) % 13835058055275898369int == 1420940947939138156int);
    assert(tz(37) == 1420940947939138156);
    assert((8784683549341838899int * 8784683549341838899int) % 13835058055275898369int == 9877783804931391182int);
    assert((1420940947939138156int * 1420940947939138156int) % 13835058055275898369int == 3957274250344507187int);
    assert((13835058055275898369int - 9877783804931391182int) % 13835058055275898369int == 3957274250344507187int);
}

proof fn lemma_tz_square_19()
    ensures
        (tz(38) * tz(38)) % q() == tz(19),
        (tz(39) * tz(39)) % q() == (q() - tz(19)) % q(),
{
    reveal(zeta_spec);
    assert(ZETAS@[19] == 4562826861878496655i128);
    assert(zeta_spec(19) == 4562826861878496655);
    assert((4562826861878496655int * 1271475462236046151int) % 13835058055275898369int == 154118298912854195int);
    assert(tz(19) == 154118298912854195);
    assert(ZETAS@[38] == -437831722710114117i128);
    assert(zeta_spec(38) == 13397226332565784252);
    assert((13397226332565784252int * 1271475462236046151int) % 13835058055275898369int == 405186519013952559int);
    assert(tz(38) == 405186519013952559);
    assert(ZETAS@[39] == 4689031949574032495i128);
    assert(zeta_spec(39) == 4689031949574032495);
    assert((4689031949574032495int * 1271475462236046151int) % 13835058055275898369int == 7156641619238436401int);
    assert(tz(39) == 7156641619238436401);
    assert((405186519013952559int * 405186519013952559int) % 13835058055275898369int == 154118298912854195int);
    assert((7156641619238436401int * 7156641619238436401int) % 13835058055275898369int == 13680939756363044174int);
    assert((13835058055275898369int - 154118298912854195int) % 13835058055275898369int == 13680939756363044174int);
}

proof fn lemma_tz_square_20()
    ensures
        (tz(40) * tz(40)) % q() == tz(20),
        (tz(41) * tz(41)) % q() == (q() - tz(20)) % q(),
{
    reveal(zeta_spec);
    assert(ZETAS@[20] == 2822996399665595795i128);
    assert(zeta_spec(20) == 2822996399665595795);
    assert((2822996399665595795int * 1271475462236046151int) % 13835058055275898369int == 3831968573694295713int);
    assert(tz(20) == 3831968573694295713);
    assert(ZETAS@[40] == -460795627035938008i128);
    assert(zeta_spec(40) == 13374262428239960361);
    assert((13374262428239960361int * 1271475462236046151int) % 13835058055275898369int == 4118768248690497433int);
    assert(tz(40) == 4118768248690497433);
    assert(ZETAS@[41] == -2729900186852309429i128);
    assert(zeta_spec(41) == 11105157868423588940);
    assert((11105157868423588940int * 1271475462236046151int) % 13835058055275898369int == 12968199677105854526int);
    assert(tz(41) == 12968199677105854526);
    assert((4118768248690497433int * 4118768248690497433int) % 13835058055275898369int == 3831968573694295713int);
    assert((12968199677105854526int * 12968199677105854526int) % 13835058055275898369int == 10003089481581602656int);
    assert((13835058055275898369int - 3831968573694295713int) % 13835058055275898369int == 10003089481581602656int);
}

proof fn lemma_tz_square_21()
    ensures
        (tz(42) * tz(42)) % q() == tz(21),
        (tz(43) * tz(43)) % q() == (q() - tz(21)) % q(),
{
    reveal(zeta_spec);
    assert(ZETAS@[21] == 5082037695556247343i128);
    assert(zeta_spec(21) == 5082037695556247343);
    assert((5082037695556247343int * 1271475462236046151int) % 13835058055275898369int == 5701829701747105195int);
    assert(tz(21) == 5701829701747105195);
    assert(ZETAS@[42] == 4958831375230657507i128);
    assert(zeta_spec(42) == 4958831375230657507);
    assert((4958831375230657507int * 1271475462236046151int) % 13835058055275898369int == 1469529582119068419int);
    assert(tz(42) == 1469529582119068419);
    assert(ZETAS@[43] == 4314914257997048595i128);
    assert(zeta_spec(43) == 4314914257997048595);
    assert((4314914257997048595int * 1271475462236046151int) % 13835058055275898369int == 13561659999421560534int);
    assert(tz(43) == 13561659999421560534);
    assert((1469529582119068419int * 1469529582119068419int) % 13835058055275898369int == 5701829701747105195int);
    assert((13561659999421560534int * 13561659999421560534int) % 13835058055275898369int == 8133228353528793174int);
    assert((13835058055275898369int - 5701829701747105195int) % 13835058055275898369int == 8133228353528793174int);
}

proof fn lemma_tz_square_22()
    ensures
        (tz(44) * tz(44)) % q() == tz(22),
        (tz(45) * tz(45)) % q() == (q() - tz(22)) % q(),
{
    reveal(zeta_spec);
    assert(ZETAS@[22] == 745738841633068290i128);
    assert(zeta_spec(22) == 745738841633068290);
    assert((745738841633068290int * 1271475462236046151int) % 13835058055275898369int == 363270275467216544int);
    assert(tz(22) == 363270275467216544);
    assert(ZETAS@[44] == 2689539792066314476i128);
    assert(zeta_spec(44) == 2689539792066314476);
    assert((2689539792066314476int * 1271475462236046151int) % 13835058055275898369int == 10894471229694819626int);
    assert(tz(44) == 10894471229694819626);
    assert(ZETAS@[45] == 1556876955611316366i128);
    assert(zeta_spec(45) == 1556876955611316366);
    assert((1556876955611316366int * 1271475462236046151int) % 13835058055275898369int == 13627838525102297896int);
    assert(tz(45) == 13627838525102297896);
    assert((10894471229694819626int * 10894471229694819626int) % 13835058055275898369int == 363270275467216544int);
    assert((13627838525102297896int * 13627838525102297896int) % 13835058055275898369int == 13471787779808681825int);
    assert((13835058055275898369int - 363270275467216544int) % 13835058055275898369int == 13471787779808681825int);
}

proof fn lemma_tz_square_23()
    ensures
        (tz(46) * tz(46)) % q() == tz(23),
        (tz(47) * tz(47)) % q() == (q() - tz(23)) % q(),
{
    reveal(zeta_spec);
    assert(ZETAS@[23] == 633169733644942350i128);
    assert(zeta_spec(23) == 633169733644942350);
    assert((633169733644942350int * 1271475462236046151int) % 13835058055275898369int == 8904401867091937847int);
    assert(tz(23) == 8904401867091937847);
    assert(ZETAS@[46] == 4127901432139452371i128);
    assert(zeta_spec(46) == 4127901432139452371);
    assert((4127901432139452371int * 1271475462236046151int) % 13835058055275898369int == 4529619372788061391int);
    assert(tz(46) == 4529619372788061391);
    assert(ZETAS@[47] == 4250483512101983420i128);
    assert(zeta_spec(47) == 4250483512101983420);
    assert((4250483512101983420int * 1271475462236046151int) % 13835058055275898369int == 5241332326454736542int);
    assert(tz(47) == 5241332326454736542);
    assert((4529619372788061391int * 4529619372788061391int) % 13835058055275898369int == 8904401867091937847int);
    assert((5241332326454736542int * 5241332326454736542int) % 13835058055275898369int == 4930656188183960522int);
    assert((13835058055275898369int - 8904401867091937847int) % 13835058055275898369int == 4930656188183960522int);
}

proof fn lemma_tz_square_24()
    ensures
        (tz(48) * tz(48)) % q() == tz(24),
        (tz(49) * tz(49)) % q() == (q() - tz(24)) % q(),
{
    reveal(zeta_spec);
    assert(ZETAS@[24] == 3458111977077273059i128);
    assert(zeta_spec(24) == 3458111977077273059);
    assert((3458111977077273059int * 1271475462236046151int) % 13835058055275898369int == 3891463871161646118int);
    assert(tz(24) == 3891463871161646118);
    assert(ZETAS@[48] == -6256633931762637093i128);
    assert(zeta_spec(48) == 7578424123513261276);
    assert((7578424123513261276int * 1271475462236046151int) % 13835058055275898369int == 5147266104997868269int);
    assert(tz(48) == 5147266104997868269);
    assert(ZETAS@[49] == -4681664571588944144i128);
    assert(zeta_spec(49) == 9153393483686954225);
    assert((9153393483686954225int * 1271475462236046151int) % 13835058055275898369int == 124402152350102715int);
    assert(tz(49) == 124402152350102715);
    assert((5147266104997868269int * 5147266104997868269int) % 13835058055275898369int == 3891463871161646118int);
    assert((124402152350102715int * 124402152350102715int) % 13835058055275898369int == 9943594184114252251int);
    assert((13835058055275898369int - 3891463871161646118int) % 13835058055275898369int == 9943594184114252251int);
}

proof fn lemma_tz_square_25()
    ensures
        (tz(50) * tz(50)) % q() == tz(25),
        (tz(51) * tz(51)) % q() == (q() - tz(25)) % q(),
{
    reveal(zeta_spec);
    assert(ZETAS@[25] == 4065489346010616149i128);
    assert(zeta_spec(25) == 4065489346010616149);
    assert((4065489346010616149int * 1271475462236046151int) % 13835058055275898369int == 322703490777996965int);
    assert(tz(25) == 322703490777996965);
    assert(ZETAS@[50] == 156650692426433285i128);
    assert(zeta_spec(50) == 156650692426433285);
    assert((156650692426433285int * 1271475462236046151int) % 13835058055275898369int == 7133166929354330567int);
    assert(tz(50) == 7133166929354330567);
    assert(ZETAS@[51] == 2069716819461342925i128);
    assert(zeta_spec(51) == 2069716819461342925);
    assert((2069716819461342925int * 1271475462236046151int) % 13835058055275898369int == 695692779537346235int);
    assert(tz(51) == 695692779537346235);
    assert((7133166929354330567int * 7133166929354330567int) % 13835058055275898369int == 322703490777996965int);
    assert((695692779537346235int * 695692779537346235int) % 13835058055275898369int == 13512354564497901404int);
    assert((13835058055275898369int - 322703490777996965int) % 13835058055275898369int == 13512354564497901404int);
}

proof fn lemma_tz_square_26()
    ensures
        (tz(52) * tz(52)) % q() == tz(26),
        (tz(53) * tz(53)) % q() == (q() - tz(26)) % q(),
{
    reveal(zeta_spec);
    assert(ZETAS@[26] == 6876880878865852470i128);
    assert(zeta_spec(26) == 6876880878865852470);
    assert((6876880878865852470int * 1271475462236046151int) % 13835058055275898369int == 3183288859315201448int);
    assert(tz(26) == 3183288859315201448);
    assert(ZETAS@[52] == -3044589325454650383i128);
    assert(zeta_spec(52) == 10790468729821247986);
    assert((10790468729821247986int * 1271475462236046151int) % 13835058055275898369int == 12448227567988457684int);
    assert(tz(52) == 12448227567988457684);
    assert(ZETAS@[53] == 1462662603041285163i128);
    assert(zeta_spec(53) == 1462662603041285163);
    assert((1462662603041285163int * 1271475462236046151int) % 13835058055275898369int == 428836444826912709int);
    assert(tz(53) == 428836444826912709);
    assert((12448227567988457684int * 12448227567988457684int) % 13835058055275898369int == 3183288859315201448int);
    assert((428836444826912709int * 428836444826912709int) % 13835058055275898369int == 10651769195960696921int);
    assert((13835058055275898369int - 3183288859315201448int) % 13835058055275898369int == 10651769195960696921int);
}

proof fn lemma_tz_square_27()
    ensures
        (tz(54) * tz(54)) % q() == tz(27),
        (tz(55) * tz(55)) % q() == (q() - tz(27)) % q(),
{
    reveal(zeta_spec);
    assert(ZETAS@[27] == -6806000428358751151i128);
    assert(zeta_spec(27) == 7029057626917147218);
    assert((7029057626917147218int * 1271475462236046151int) % 13835058055275898369int == 10309795339718104422int);
    assert(tz(27) == 10309795339718104422);
    assert(ZETAS@[54] == 4609624266595818327i128);
    assert(zeta_spec(54) == 4609624266595818327);
    assert((4609624266595818327int * 1271475462236046151int) % 13835058055275898369int == 4351668147738069239int);
    assert(tz(54) == 4351668147738069239);
    assert(ZETAS@[55] == 6674403165336970061i128);
    assert(zeta_spec(55) == 6674403165336970061);
    assert((6674403165336970061int * 1271475462236046151int) % 13835058055275898369int == 12086123364621788126int);
    assert(tz(55) == 12086123364621788126);
    assert((4351668147738069239int * 4351668147738069239int) % 13835058055275898369int == 10309795339718104422int);
    assert((12086123364621788126int * 12086123364621788126int) % 13835058055275898369int == 3525262715557793947int);
    assert((13835058055275898369int - 10309795339718104422int) % 13835058055275898369int == 3525262715557793947int);
}

proof fn lemma_tz_square_28()
    ensures
        (tz(56) * tz(56)) % q() == tz(28),
        (tz(57) * tz(57)) % q() == (q() - tz(28)) % q(),
{
    reveal(zeta_spec);
    assert(ZETAS@[28] == -3410546557051774221i128);
    assert(zeta_spec(28) == 10424511498224124148);
    assert((10424511498224124148int * 1271475462236046151int) % 13835058055275898369int == 8457866482860861301int);
    assert(tz(28) == 8457866482860861301);
    assert(ZETAS@[56] == -338581298071975759i128);
    assert(zeta_spec(56) == 13496476757203922610);
    assert((13496476757203922610int * 1271475462236046151int) % 13835058055275898369int == 11026470300303391829int);
    assert(tz(56) == 11026470300303391829);
    assert(ZETAS@[57] == 2040836476977888315i128);
    assert(zeta_spec(57) == 2040836476977888315);
    assert((2040836476977888315int * 1271475462236046151int) % 13835058055275898369int == 11695384967613506401int);
    assert(tz(57) == 11695384967613506401);
    assert((11026470300303391829int * 11026470300303391829int) % 13835058055275898369int == 8457866482860861301int);
    assert((11695384967613506401int * 11695384967613506401int) % 13835058055275898369int == 5377191572415037068int);
    assert((13835058055275898369int - 8457866482860861301int) % 13835058055275898369int == 5377191572415037068int);
}

proof fn lemma_tz_square_29()
    ensures
        (tz(58) * tz(58)) % q() == tz(29),
        (tz(59) * tz(59)) % q() == (q() - tz(29)) % q(),
{
    reveal(zeta_spec);
    assert(ZETAS@[29] == -2069297829992143500i128);
    assert(zeta_spec(29) == 11765760225283754869);
    assert((11765760225283754869int * 1271475462236046151int) % 13835058055275898369int == 12018738895312285940int);
    assert(tz(29) == 12018738895312285940);
    assert(ZETAS@[58] == -273191801007909499i128);
    assert(zeta_spec(58) == 13561866254267988870);
    assert((13561866254267988870int * 1271475462236046151int) % 13835058055275898369int == 1012097197680910330int);
    assert(tz(58) == 1012097197680910330);
    assert(ZETAS@[59] == -2656845851757036308i128);
    assert(zeta_spec(59) == 11178212203518862061);
    assert((11178212203518862061int * 1271475462236046151int) % 13835058055275898369int == 5840081798142246220int);
    assert(tz(59) == 5840081798142246220);
    assert((1012097197680910330int * 1012097197680910330int) % 13835058055275898369int == 12018738895312285940int);
    assert((5840081798142246220int * 5840081798142246220int) % 13835058055275898369int == 1816319159963612429int);
    assert((13835058055275898369int - 12018738895312285940int) % 13835058055275898369int == 1816319159963612429int);
}

proof fn lemma_tz_square_30()
    ensures
        (tz(60) * tz(60)) % q() == tz(30),
        (tz(61) * tz(61)) % q() == (q() - tz(30)) % q(),
{
    reveal(zeta_spec);
    assert(ZETAS@[30] == -5891018715525901177i128);
    assert(zeta_spec(30) == 7944039339749997192);
    assert((7944039339749997192int * 1271475462236046151int) % 13835058055275898369int == 791707172728401814int);
    assert(tz(30) == 791707172728401814);
    assert(ZETAS@[60] == -44711985415143478i128);
    assert(zeta_spec(60) == 13790346069860754891);
    assert((13790346069860754891int * 1271475462236046151int) % 13835058055275898369int == 4246780295295792300int);
    assert(tz(60) == 4246780295295792300);
    assert(ZETAS@[61] == 6353563406977357718i128);
    assert(zeta_spec(61) == 6353563406977357718);
    assert((6353563406977357718int * 1271475462236046151int) % 13835058055275898369int == 229008672549633075int);
    assert(tz(61) == 229008672549633075);
    assert((4246780295295792300int * 4246780295295792300int) % 13835058055275898369int == 791707172728401814int);
    assert((229008672549633075int * 229008672549633075int) % 13835058055275898369int == 13043350882547496555int);
    assert((13835058055275898369int - 791707172728401814int) % 13835058055275898369int == 13043350882547496555int);
}

proof fn lemma_tz_square_31()
    ensures
        (tz(62) * tz(62)) % q() == tz(31),
        (tz(63) * tz(63)) % q() == (q() - tz(31)) % q(),
{
    reveal(zeta_spec);
    assert(ZETAS@[31] == 262987071806669675i128);
    assert(zeta_spec(31) == 262987071806669675);
    assert((262987071806669675int * 1271475462236046151int) % 13835058055275898369int == 4954728309812845082int);
    assert(tz(31) == 4954728309812845082);
    assert(ZETAS@[62] == 3031822331272221894i128);
    assert(zeta_spec(62) == 3031822331272221894);
    assert((3031822331272221894int * 1271475462236046151int) % 13835058055275898369int == 6084479256416108563int);
    assert(tz(62) == 6084479256416108563);
    assert(ZETAS@[63] == -762779014219402480i128);
    assert(zeta_spec(63) == 13072279041056495889);
    assert((13072279041056495889int * 1271475462236046151int) % 13835058055275898369int == 9710263513832740967int);
    assert(tz(63) == 9710263513832740967);
    assert((6084479256416108563int * 6084479256416108563int) % 13835058055275898369int == 4954728309812845082int);
    assert((9710263513832740967int * 9710263513832740967int) % 13835058055275898369int == 8880329745463053287int);
    assert((13835058055275898369int - 4954728309812845082int) % 13835058055275898369int == 8880329745463053287int);
}

proof fn lemma_tz_square_32()
    ensures
        (tz(64) * tz(64)) % q() == tz(32),
        (tz(65) * tz(65)) % q() == (q() - tz(32)) % q(),
{
    reveal(zeta_spec);
    assert(ZETAS@[32] == -4209832979942217088i128);
    assert(zeta_spec(32) == 9625225075333681281);
    assert((9625225075333681281int * 1271475462236046151int) % 13835058055275898369int == 6718638093991633654int);
    assert(tz(32) == 6718638093991633654);
    assert(ZETAS@[64] == -2372743451200819209i128);
    assert(zeta_spec(64) == 11462314604075079160);
    assert((11462314604075079160int * 1271475462236046151int) % 13835058055275898369int == 4914799530725508435int);
    assert(tz(64) == 4914799530725508435);
    assert(ZETAS@[65] == -4479457842878286898i128);
    assert(zeta_spec(65) == 9355600212397611471);
    assert((9355600212397611471int * 1271475462236046151int) % 13835058055275898369int == 8845643568581621848int);
    assert(tz(65) == 8845643568581621848);
    assert((4914799530725508435int * 4914799530725508435int) % 13835058055275898369int == 6718638093991633654int);
    assert((8845643568581621848int * 8845643568581621848int) % 13835058055275898369int == 7116419961284264715int);
    assert((13835058055275898369int - 6718638093991633654int) % 13835058055275898369int == 7116419961284264715int);
}

proof fn lemma_tz_square_33()
    ensures
        (tz(66) * tz(66)) % q() == tz(33),
        (tz(67) * tz(67)) % q() == (q() - tz(33)) % q(),
{
    reveal(zeta_spec);
    assert(ZETAS@[33] == -4853399977178133286i128);
    assert(zeta_spec(33) == 8981658078097765083);
    assert((8981658078097765083int * 1271475462236046151int) % 13835058055275898369int == 11587968471264831598int);
    assert(tz(33) == 11587968471264831598);
    assert(ZETAS@[66] == -5808516804873542315i128);
    assert(zeta_spec(66) == 8026541250402356054);
    assert((8026541250402356054int * 1271475462236046151int) % 13835058055275898369int == 9459607574403837083int);
    assert(tz(66) == 9459607574403837083);
    assert(ZETAS@[67] == 5202493321066001563i128);
    assert(zeta_spec(67) == 5202493321066001563);
    assert((5202493321066001563int * 1271475462236046151int) % 13835058055275898369int == 11053060864838895964int);
    assert(tz(67) == 11053060864838895964);
    assert((9459607574403837083int * 9459607574403837083int) % 13835058055275898369int == 11587968471264831598int);
    assert((11053060864838895964int * 11053060864838895964int) % 13835058055275898369int == 2247089584011066771int);
    assert((13835058055275898369int - 11587968471264831598int) % 13835058055275898369int == 2247089584011066771int);
}

proof fn lemma_tz_square_34()
    ensures
        (tz(68) * tz(68)) % q() == tz(34),
        (tz(69) * tz(69)) % q() == (q() - tz(34)) % q(),
{
    reveal(zeta_spec);
    assert(ZETAS@[34] == -4469635722433500072i128);
    assert(zeta_spec(34) == 9365422332842398297);
    assert((9365422332842398297int * 1271475462236046151int) % 13835058055275898369int == 1106811970530137295int);
    assert(tz(34) == 1106811970530137295);
    assert(ZETAS@[68] == 2664425064816597460i128);
    assert(zeta_spec(68) == 2664425064816597460);
    assert((2664425064816597460int * 1271475462236046151int) % 13835058055275898369int == 11571318526178500903int);
    assert(tz(68) == 11571318526178500903);
    assert(ZETAS@[69] == 4127525199519907716i128);
    assert(zeta_spec(69) == 4127525199519907716);
    assert((4127525199519907716int * 1271475462236046151int) % 13835058055275898369int == 4190643123838082351int);
    assert(tz(69) == 4190643123838082351);
    assert((11571318526178500903int * 11571318526178500903int) % 13835058055275898369int == 1106811970530137295int);
    assert((4190643123838082351int * 4190643123838082351int) % 13835058055275898369int == 12728246084745761074int);
    assert((13835058055275898369int - 1106811970530137295int) % 13835058055275898369int == 12728246084745761074int);
}

proof fn lemma_tz_square_35()
    ensures
        (tz(70) * tz(70)) % q() == tz(35),
        (tz(71) * tz(71)) % q() == (q() - tz(35)) % q(),
{
    reveal(zeta_spec);
    assert(ZETAS@[35] == -2719828446725532201i128);
    assert(zeta_spec(35) == 11115229608550366168);
    assert((11115229608550366168int * 1271475462236046151int) % 13835058055275898369int == 566417125607785763int);
    assert(tz(35) == 566417125607785763);
    assert(ZETAS@[70] == -5367643274131333069i128);
    assert(zeta_spec(70) == 8467414781144565300);
    assert((8467414781144565300int * 1271475462236046151int) % 13835058055275898369int == 8697249334011350030int);
    assert(tz(70) == 8697249334011350030);
    assert(ZETAS@[71] == -2101288124888178948i128);
    assert(zeta_spec(71) == 11733769930387719421);
    assert((11733769930387719421int * 1271475462236046151int) % 13835058055275898369int == 6650195545353093804int);
    assert(tz(71) == 6650195545353093804);
    assert((8697249334011350030int * 8697249334011350030int) % 13835058055275898369int == 566417125607785763int);
    assert((6650195545353093804int * 6650195545353093804int) % 13835058055275898369int == 13268640929668112606int);
    assert((13835058055275898369int - 566417125607785763int) % 13835058055275898369int == 13268640929668112606int);
}

proof fn lemma_tz_square_36()
    ensures
        (tz(72) * tz(72)) % q() == tz(36),
        (tz(73) * tz(73)) % q() == (q() - tz(36)) % q(),
{
    reveal(zeta_spec);
    assert(ZETAS@[36] == 2932733688436728947i128);
    assert(zeta_spec(36) == 2932733688436728947);
    assert((2932733688436728947int * 1271475462236046151int) % 13835058055275898369int == 8784683549341838899int);
    assert(tz(36) == 8784683549341838899);
    assert(ZETAS@[72] == -2164111735454328589i128);
    assert(zeta_spec(72) == 11670946319821569780);
    assert((11670946319821569780int * 1271475462236046151int) % 13835058055275898369int == 7524818683905534849int);
    assert(tz(72) == 7524818683905534849);
    assert(ZETAS@[73] == 3426632667190719615i128);
    assert(zeta_spec(73) == 3426632667190719615);
    assert((3426632667190719615int * 1271475462236046151int) % 13835058055275898369int == 6534146519168750932int);
    assert(tz(73) == 6534146519168750932);
    assert((7524818683905534849int * 7524818683905534849int) % 13835058055275898369int == 8784683549341838899int);
    assert((6534146519168750932int * 6534146519168750932int) % 13835058055275898369int == 5050374505934059470int);
    assert((13835058055275898369int - 8784683549341838899int) % 13835058055275898369int == 5050374505934059470int);
}

proof fn lemma_tz_square_37()
    ensures
        (tz(74) * tz(74)) % q() == tz(37),
        (tz(75) * tz(75)) % q() == (q() - tz(37)) % q(),
{
    reveal(zeta_spec);
    assert(ZETAS@[37] == 3225024695543939740i128);
    assert(zeta_spec(37) == 3225024695543939740);
    assert((3225024695543939740int * 1271475462236046151int) % 13835058055275898369int == 1420940947939138156int);
    assert(tz(37) == 1420940947939138156);
    assert(ZETAS@[74] == -1449132584730080406i128);
    assert(zeta_spec(74) == 12385925470545817963);
    assert((12385925470545817963int * 1271475462236046151int) % 13835058055275898369int == 5259331692335504580int);
    assert(tz(74) == 5259331692335504580);
    assert(ZETAS@[75] == -4033040700149638753i128);
    assert(zeta_spec(75) == 9802017355126259616);
    assert((9802017355126259616int * 1271475462236046151int) % 13835058055275898369int == 13600344253596337534int);
    assert(tz(75) == 13600344253596337534);
    assert((5259331692335504580int * 5259331692335504580int) % 13835058055275898369int == 1420940947939138156int);
    assert((13600344253596337534int * 13600344253596337534int) % 13835058055275898369int == 12414117107336760213int);
    assert((13835058055275898369int - 1420940947939138156int) % 13835058055275898369int == 12414117107336760213int);
}

proof fn lemma_tz_square_38()
    ensures
        (tz(76) * tz(76)) % q() == tz(38),
        (tz(77) * tz(77)) % q() == (q() - tz(38)) % q(),
{
    reveal(zeta_spec);
    assert(ZETAS@[38] == -437831722710114117i128);
    assert(zeta_spec(38) == 13397226332565784252);
    assert((13397226332565784252int * 1271475462236046151int) % 13835058055275898369int == 405186519013952559int);
    assert(tz(38) == 405186519013952559);
    assert(ZETAS@[76] == -4568336411430482635i128);
    assert(zeta_spec(76) == 9266721643845415734);
    assert((9266721643845415734int * 1271475462236046151int) % 13835058055275898369int == 7982541635113526171int);
    assert(tz(76) == 7982541635113526171);
    assert(ZETAS@[77] == 5475667053731798313i128);
    assert(zeta_spec(77) == 5475667053731798313);
    assert((5475667053731798313int * 1271475462236046151int) % 13835058055275898369int == 9033797321583660541int);
    assert(tz(77) == 9033797321583660541);
    assert((7982541635113526171int * 7982541635113526171int) % 13835058055275898369int == 405186519013952559int);
    assert((9033797321583660541int * 9033797321583660541int) % 13835058055275898369int == 13429871536261945810int);
    assert((13835058055275898369int - 405186519013952559int) % 13835058055275898369int == 13429871536261945810int);
}

proof fn lemma_tz_square_39()
    ensures
        (tz(78) * tz(78)) % q() == tz(39),
        (tz(79) * tz(79)) % q() == (q() - tz(39)) % q(),
{
    reveal(zeta_spec);
    assert(ZETAS@[39] == 4689031949574032495i128);
    assert(zeta_spec(39) == 4689031949574032495);
    assert((4689031949574032495int * 1271475462236046151int) % 13835058055275898369int == 7156641619238436401int);
    assert(tz(39) == 7156641619238436401);
    assert(ZETAS@[78] == 4835718490655127805i128);
    assert(zeta_spec(78) == 4835718490655127805);
    assert((4835718490655127805int * 1271475462236046151int) % 13835058055275898369int == 11924141480683706917int);
    assert(tz(78) == 11924141480683706917);
    assert(ZETAS@[79] == -3262171357217770981i128);
    assert(zeta_spec(79) == 10572886698058127388);
    assert((10572886698058127388int * 1271475462236046151int) % 13835058055275898369int == 3574095597933680999int);
    assert(tz(79) == 3574095597933680999);
    assert((11924141480683706917int * 11924141480683706917int) % 13835058055275898369int == 7156641619238436401int);
    assert((3574095597933680999int * 3574095597933680999int) % 13835058055275898369int == 6678416436037461968int);
    assert((13835058055275898369int - 7156641619238436401int) % 13835058055275898369int == 6678416436037461968int);
}

proof fn lemma_tz_square_40()
    ensures
        (tz(80) * tz(80)) % q() == tz(40),
        (tz(81) * tz(81)) % q() == (q() - tz(40)) % q(),
{
    reveal(zeta_spec);
    assert(ZETAS@[40] == -460795627035938008i128);
    assert(zeta_spec(40) == 13374262428239960361);
    assert((13374262428239960361int * 1271475462236046151int) % 13835058055275898369int == 4118768248690497433int);
    assert(tz(40) == 4118768248690497433);
    assert(ZETAS@[80] == -721708503450034379i128);
    assert(zeta_spec(80) == 13113349551825863990);
    assert((13113349551825863990int * 1271475462236046151int) % 13835058055275898369int == 3393610723079773146int);
    assert(tz(80) == 3393610723079773146);
    assert(ZETAS@[81] == -442230070471120890i128);
    assert(zeta_spec(81) == 13392827984804777479);
    assert((13392827984804777479int * 1271475462236046151int) % 13835058055275898369int == 1671917687836131171int);
    assert(tz(81) == 1671917687836131171);
    assert((3393610723079773146int * 3393610723079773146int) % 13835058055275898369int == 4118768248690497433int);
    assert((1671917687836131171int * 1671917687836131171int) % 13835058055275898369int == 9716289806585400936int);
    assert((13835058055275898369int - 4118768248690497433int) % 13835058055275898369int == 9716289806585400936int);
}

proof fn lemma_tz_square_41()
    ensures
        (tz(82) * tz(82)) % q() == tz(41),
        (tz(83) * tz(83)) % q() == (q() - tz(41)) % q(),
{
    reveal(zeta_spec);
    assert(ZETAS@[41] == -2729900186852309429i128);
    assert(zeta_spec(41) == 11105157868423588940);
    assert((11105157868423588940int * 1271475462236046151int) % 13835058055275898369int == 12968199677105854526int);
    assert(tz(41) == 12968199677105854526);
    assert(ZETAS@[82] == 6488316196029542432i128);
    assert(zeta_spec(82) == 6488316196029542432);
    assert((6488316196029542432int * 1271475462236046151int) % 13835058055275898369int == 10292676294020271188int);
    assert(tz(82) == 10292676294020271188);
    assert(ZETAS@[83] == 3668928761566150171i128);
    assert(zeta_spec(83) == 3668928761566150171);
    assert((3668928761566150171int * 1271475462236046151int) % 13835058055275898369int == 13732984431266315646int);
    assert(tz(83) == 13732984431266315646);
    assert((10292676294020271188int * 10292676294020271188int) % 13835058055275898369int == 12968199677105854526int);
    assert((13732984431266315646int * 13732984431266315646int) % 13835058055275898369int == 866858378170043843int);
    assert((13835058055275898369int - 12968199677105854526int) % 13835058055275898369int == 866858378170043843int);
}

proof fn lemma_tz_square_42()
    ensures
        (tz(84) * tz(84)) % q() == tz(42),
        (tz(85) * tz(85)) % q() == (q() - tz(42)) % q(),
{
    reveal(zeta_spec);
    assert(ZETAS@[42] == 4958831375230657507i128);
    assert(zeta_spec(42) == 4958831375230657507);
    assert((4958831375230657507int * 1271475462236046151int) % 13835058055275898369int == 1469529582119068419int);
    assert(tz(42) == 1469529582119068419);
    assert(ZETAS@[84] == 1879062554842413453i128);
    assert(zeta_spec(84) == 1879062554842413453);
    assert((1879062554842413453int * 1271475462236046151int) % 13835058055275898369int == 3292016700146178000int);
    assert(tz(84) == 3292016700146178000);
    assert(ZETAS@[85] == 6622523374060929081i128);
    assert(zeta_spec(85) == 6622523374060929081);
    assert((6622523374060929081int * 1271475462236046151int) % 13835058055275898369int == 870323491820823743int);
    assert(tz(85) == 870323491820823743);
    assert((3292016700146178000int * 3292016700146178000int) % 13835058055275898369int == 1469529582119068419int);
    assert((870323491820823743int * 870323491820823743int) % 13835058055275898369int == 12365528473156829950int);
    assert((13835058055275898369int - 1469529582119068419int) % 13835058055275898369int == 12365528473156829950int);
}

proof fn lemma_tz_square_43()
    ensures
        (tz(86) * tz(86)) % q() == tz(43),
        (tz(87) * tz(87)) % q() == (q() - tz(43)) % q(),
{
    reveal(zeta_spec);
    assert(ZETAS@[43] == 4314914257997048595i128);
    assert(zeta_spec(43) == 4314914257997048595);
    assert((4314914257997048595int * 1271475462236046151int) % 13835058055275898369int == 13561659999421560534int);
    assert(tz(43) == 13561659999421560534);
    assert(ZETAS@[86] == 4497823662372655678i128);
    assert(zeta_spec(86) == 4497823662372655678);
    assert((4497823662372655678int * 1271475462236046151int) % 13835058055275898369int == 7636727711850271762int);
    assert(tz(86) == 7636727711850271762);
    assert(ZETAS@[87] == 2181189622346755299i128);
    assert(zeta_spec(87) == 2181189622346755299);
    assert((2181189622346755299int * 1271475462236046151int) % 13835058055275898369int == 10988312001404831152int);
    assert(tz(87) == 10988312001404831152);
    assert((7636727711850271762int * 7636727711850271762int) % 13835058055275898369int == 13561659999421560534int);
    assert((10988312001404831152int * 10988312001404831152int) % 13835058055275898369int == 273398055854337835int);
    assert((13835058055275898369int - 13561659999421560534int) % 13835058055275898369int == 273398055854337835int);
}

proof fn lemma_tz_square_44()
    ensures
        (tz(88) * tz(88)) % q() == tz(44),
        (tz(89) * tz(89)) % q() == (q() - tz(44)) % q(),
{
    reveal(zeta_spec);
    assert(ZETAS@[44] == 2689539792066314476i128);
    assert(zeta_spec(44) == 2689539792066314476);
    assert((2689539792066314476int * 1271475462236046151int) % 13835058055275898369int == 10894471229694819626int);
    assert(tz(44) == 10894471229694819626);
    assert(ZETAS@[88] == 3343598498793886526i128);
    assert(zeta_spec(88) == 3343598498793886526);
    assert((3343598498793886526int * 1271475462236046151int) % 13835058055275898369int == 4518363590319415208int);
    assert(tz(88) == 4518363590319415208);
    assert(ZETAS@[89] == -5832667444522673062i128);
    assert(zeta_spec(89) == 8002390610753225307);
    assert((8002390610753225307int * 1271475462236046151int) % 13835058055275898369int == 9888038638669290484int);
    assert(tz(89) == 9888038638669290484);
    assert((4518363590319415208int * 4518363590319415208int) % 13835058055275898369int == 10894471229694819626int);
    assert((9888038638669290484int * 9888038638669290484int) % 13835058055275898369int == 2940586825581078743int);
    assert((13835058055275898369int - 10894471229694819626int) % 13835058055275898369int == 2940586825581078743int);
}

proof fn lemma_tz_square_45()
    ensures
        (tz(90) * tz(90)) % q() == tz(45),
        (tz(91) * tz(91)) % q() == (q() - tz(45)) % q(),
{
    reveal(zeta_spec);
    assert(ZETAS@[45] == 1556876955611316366i128);
    assert(zeta_spec(45) == 1556876955611316366);
    assert((1556876955611316366int * 1271475462236046151int) % 13835058055275898369int == 13627838525102297896int);
    assert(tz(45) == 13627838525102297896);
    assert(ZETAS@[90] == -5769155328229301819i128);
    assert(zeta_spec(90) == 8065902727046596550);
    assert((8065902727046596550int * 1271475462236046151int) % 13835058055275898369int == 4708579716981226437int);
    assert(tz(90) == 4708579716981226437);
    assert(ZETAS@[91] == -4683268811401307848i128);
    assert(zeta_spec(91) == 9151789243874590521);
    assert((9151789243874590521int * 1271475462236046151int) % 13835058055275898369int == 12324923784855965310int);
    assert(tz(91) == 12324923784855965310);
    assert((4708579716981226437int * 4708579716981226437int) % 13835058055275898369int == 13627838525102297896int);
    assert((12324923784855965310int * 12324923784855965310int) % 13835058055275898369int == 207219530173600473int);
    assert((13835058055275898369int - 13627838525102297896int) % 13835058055275898369int == 207219530173600473int);
}

proof fn lemma_tz_square_46()
    ensures
        (tz(92) * tz(92)) % q() == tz(46),
        (tz(93) * tz(93)) % q() == (q() - tz(46)) % q(),
{
    reveal(zeta_spec);
    assert(ZETAS@[46] == 4127901432139452371i128);
    assert(zeta_spec(46) == 4127901432139452371);
    assert((4127901432139452371int * 1271475462236046151int) % 13835058055275898369int == 4529619372788061391int);
    assert(tz(46) == 4529619372788061391);
    assert(ZETAS@[92] == -432338560991021804i128);
    assert(zeta_spec(92) == 13402719494284876565);
    assert((13402719494284876565int * 1271475462236046151int) % 13835058055275898369int == 8515066096868637485int);
    assert(tz(92) == 8515066096868637485);
    assert(ZETAS@[93] == -3488522677917641439i128);
    assert(zeta_spec(93) == 10346535377358256930);
    assert((10346535377358256930int * 1271475462236046151int) % 13835058055275898369int == 794329684107693951int);
    assert(tz(93) == 794329684107693951);
    assert((8515066096868637485int * 8515066096868637485int) % 13835058055275898369int == 4529619372788061391int);
    assert((794329684107693951int * 794329684107693951int) % 13835058055275898369int == 9305438682487836978int);
    assert((13835058055275898369int - 4529619372788061391int) % 13835058055275898369int == 9305438682487836978int);
}

proof fn lemma_tz_square_47()
    ensures
        (tz(94) * tz(94)) % q() == tz(47),
        (tz(95) * tz(95)) % q() == (q() - tz(47)) % q(),
{
    reveal(zeta_spec);
    assert(ZETAS@[47] == 4250483512101983420i128);
    assert(zeta_spec(47) == 4250483512101983420);
    assert((4250483512101983420int * 1271475462236046151int) % 13835058055275898369int == 5241332326454736542int);
    assert(tz(47) == 5241332326454736542);
    assert(ZETAS@[94] == -1748976110565841208i128);
    assert(zeta_spec(94) == 12086081944710057161);
    assert((12086081944710057161int * 1271475462236046151int) % 13835058055275898369int == 8486410277728092823int);
    assert(tz(94) == 8486410277728092823);
    assert(ZETAS@[95] == 1931908146623244118i128);
    assert(zeta_spec(95) == 1931908146623244118);
    assert((1931908146623244118int * 1271475462236046151int) % 13835058055275898369int == 7836652370687295126int);
    assert(tz(95) == 7836652370687295126);
    assert((8486410277728092823int * 8486410277728092823int) % 13835058055275898369int == 5241332326454736542int);
    assert((7836652370687295126int * 7836652370687295126int) % 13835058055275898369int == 8593725728821161827int);
    assert((13835058055275898369int - 5241332326454736542int) % 13835058055275898369int == 8593725728821161827int);
}

proof fn lemma_tz_square_48()
    ensures
        (tz(96) * tz(96)) % q() == tz(48),
        (tz(97) * tz(97)) % q() == (q() - tz(48)) % q(),
{
    reveal(zeta_spec);
    assert(ZETAS@[48] == -6256633931762637093i128);
    assert(zeta_spec(48) == 7578424123513261276);
    assert((7578424123513261276int * 1271475462236046151int) % 13835058055275898369int == 5147266104997868269int);
    assert(tz(48) == 5147266104997868269);
    assert(ZETAS@[96] == 101008600497379161i128);
    assert(zeta_spec(96) == 101008600497379161);
    assert((101008600497379161int * 1271475462236046151int) % 13835058055275898369int == 12735352064277296731int);
    assert(tz(96) == 12735352064277296731);
    assert(ZETAS@[97] == 6678619682012113901i128);
    assert(zeta_spec(97) == 6678619682012113901);
    assert((6678619682012113901int * 1271475462236046151int) % 13835058055275898369int == 5431495734014839124int);
    assert(tz(97) == 5431495734014839124);
    assert((12735352064277296731int * 12735352064277296731int) % 13835058055275898369int == 5147266104997868269int);
    assert((5431495734014839124int * 5431495734014839124int) % 13835058055275898369int == 8687791950278030100int);
    assert((13835058055275898369int - 5147266104997868269int) % 13835058055275898369int == 8687791950278030100int);
}

proof fn lemma_tz_square_49()
    ensures
        (tz(98) * tz(98)) % q() == tz(49),
        (tz(99) * tz(99)) % q() == (q() - tz(49)) % q(),
{
    reveal(zeta_spec);
    assert(ZETAS@[49] == -4681664571588944144i128);
    assert(zeta_spec(49) == 9153393483686954225);
    assert((9153393483686954225int * 1271475462236046151int) % 13835058055275898369int == 124402152350102715int);
    assert(tz(49) == 124402152350102715);
    assert(ZETAS@[98] == 6864728106536110716i128);
    assert(zeta_spec(98) == 6864728106536110716);
    assert((6864728106536110716int * 1271475462236046151int) % 13835058055275898369int == 198786362502121085int);
    assert(tz(98) == 198786362502121085);
    assert(ZETAS@[99] == -4854416514682753834i128);
    assert(zeta_spec(99) == 8980641540593144535);
    assert((8980641540593144535int * 1271475462236046151int) % 13835058055275898369int == 8045577100442454240int);
    assert(tz(99) == 8045577100442454240);
    assert((198786362502121085int * 198786362502121085int) % 13835058055275898369int == 124402152350102715int);
    assert((8045577100442454240int * 8045577100442454240int) % 13835058055275898369int == 13710655902925795654int);
    assert((13835058055275898369int - 124402152350102715int) % 13835058055275898369int == 13710655902925795654int);
}

proof fn lemma_tz_square_50()
    ensures
        (tz(100) * tz(100)) % q() == tz(50),
        (tz(101) * tz(101)) % q() == (q() - tz(50)) % q(),
{
    reveal(zeta_spec);
    assert(ZETAS@[50] == 156650692426433285i128);
    assert(zeta_spec(50) == 156650692426433285);
    assert((156650692426433285int * 1271475462236046151int) % 13835058055275898369int == 7133166929354330567int);
    assert(tz(50) == 7133166929354330567);
    assert(ZETAS@[100] == 2263811077158641856i128);
    assert(zeta_spec(100) == 2263811077158641856);
    assert((2263811077158641856int * 1271475462236046151int) % 13835058055275898369int == 672247913938338366int);
    assert(tz(100) == 672247913938338366);
    assert(ZETAS@[101] == -3831832212124189303i128);
    assert(zeta_spec(101) == 10003225843151709066);
    assert((10003225843151709066int * 1271475462236046151int) % 13835058055275898369int == 10803767452273056424int);
    assert(tz(101) == 10803767452273056424);
    assert((672247913938338366int * 672247913938338366int) % 13835058055275898369int == 7133166929354330567int);
    assert((10803767452273056424int * 10803767452273056424int) % 13835058055275898369int == 6701891125921567802int);
    assert((13835058055275898369int - 7133166929354330567int) % 13835058055275898369int == 6701891125921567802int);
}

proof fn lemma_tz_square_51()
    ensures
        (tz(102) * tz(102)) % q() == tz(51),
        (tz(103) * tz(103)) % q() == (q() - tz(51)) % q(),
{
    reveal(zeta_spec);
    assert(ZETAS@[51] == 2069716819461342925i128);
    assert(zeta_spec(51) == 2069716819461342925);
    assert((2069716819461342925int * 1271475462236046151int) % 13835058055275898369int == 695692779537346235int);
    assert(tz(51) == 695692779537346235);
    assert(ZETAS@[102] == 2577497029180678273i128);
    assert(zeta_spec(102) == 2577497029180678273);
    assert((2577497029180678273int * 1271475462236046151int) % 13835058055275898369int == 9947147881831630791int);
    assert(tz(102) == 9947147881831630791);
    assert(ZETAS@[103] == -3316505856631513396i128);
    assert(zeta_spec(103) == 10518552198644384973);
    assert((10518552198644384973int * 1271475462236046151int) % 13835058055275898369int == 3123897306615576775int);
    assert(tz(103) == 3123897306615576775);
    assert((9947147881831630791int * 9947147881831630791int) % 13835058055275898369int == 695692779537346235int);
    assert((3123897306615576775int * 3123897306615576775int) % 13835058055275898369int == 13139365275738552134int);
    assert((13835058055275898369int - 695692779537346235int) % 13835058055275898369int == 13139365275738552134int);
}

proof fn lemma_tz_square_52()
    ensures
        (tz(104) * tz(104)) % q() == tz(52),
        (tz(105) * tz(105)) % q() == (q() - tz(52)) % q(),
{
    reveal(zeta_spec);
    assert(ZETAS@[52] == -3044589325454650383i128);
    assert(zeta_spec(52) == 10790468729821247986);
    assert((10790468729821247986int * 1271475462236046151int) % 13835058055275898369int == 12448227567988457684int);
    assert(tz(52) == 12448227567988457684);
    assert(ZETAS@[104] == 141308948101872457i128);
    assert(zeta_spec(104) == 141308948101872457);
    assert((141308948101872457int * 1271475462236046151int) % 13835058055275898369int == 7764697783612800105int);
    assert(tz(104) == 7764697783612800105);
    assert(ZETAS@[105] == 4037194506457022523i128);
    assert(zeta_spec(105) == 4037194506457022523);
    assert((4037194506457022523int * 1271475462236046151int) % 13835058055275898369int == 5380399041153979261int);
    assert(tz(105) == 5380399041153979261);
    assert((7764697783612800105int * 7764697783612800105int) % 13835058055275898369int == 12448227567988457684int);
    assert((5380399041153979261int * 5380399041153979261int) % 13835058055275898369int == 1386830487287440685int);
    assert((13835058055275898369int - 12448227567988457684int) % 13835058055275898369int == 1386830487287440685int);
}

proof fn lemma_tz_square_53()
    ensures
        (tz(106) * tz(106)) % q() == tz(53),
        (tz(107) * tz(107)) % q() == (q() - tz(53)) % q(),
{
    reveal(zeta_spec);
    assert(ZETAS@[53] == 1462662603041285163i128);
    assert(zeta_spec(53) == 1462662603041285163);
    assert((1462662603041285163int * 1271475462236046151int) % 13835058055275898369int == 428836444826912709int);
    assert(tz(53) == 428836444826912709);
    assert(ZETAS@[106] == 5142836145630396386i128);
    assert(zeta_spec(106) == 5142836145630396386);
    assert((5142836145630396386int * 1271475462236046151int) % 13835058055275898369int == 8704676177894429352int);
    assert(tz(106) == 8704676177894429352);
    assert(ZETAS@[107] == -1159634373834138383i128);
    assert(zeta_spec(107) == 12675423681441759986);
    assert((12675423681441759986int * 1271475462236046151int) % 13835058055275898369int == 2571945956162062608int);
    assert(tz(107) == 2571945956162062608);
    assert((8704676177894429352int * 8704676177894429352int) % 13835058055275898369int == 428836444826912709int);
    assert((2571945956162062608int * 2571945956162062608int) % 13835058055275898369int == 13406221610448985660int);
    assert((13835058055275898369int - 428836444826912709int) % 13835058055275898369int == 13406221610448985660int);
}

proof fn lemma_tz_square_54()
    ensures
        (tz(108) * tz(108)) % q() == tz(54),
        (tz(109) * tz(109)) % q() == (q() - tz(54)) % q(),
{
    reveal(zeta_spec);
    assert(ZETAS@[54] == 4609624266595818327i128);
    assert(zeta_spec(54) == 4609624266595818327);
    assert((4609624266595818327int * 1271475462236046151int) % 13835058055275898369int == 4351668147738069239int);
    assert(tz(54) == 4351668147738069239);
    assert(ZETAS@[108] == 1103814451303893121i128);
    assert(zeta_spec(108) == 1103814451303893121);
    assert((1103814451303893121int * 1271475462236046151int) % 13835058055275898369int == 12031492115505967771int);
    assert(tz(108) == 12031492115505967771);
    assert(ZETAS@[109] == -5107084311639924838i128);
    assert(zeta_spec(109) == 8727973743635973531);
    assert((8727973743635973531int * 1271475462236046151int) % 13835058055275898369int == 5841250740618567736int);
    assert(tz(109) == 5841250740618567736);
    assert((12031492115505967771int * 12031492115505967771int) % 13835058055275898369int == 4351668147738069239int);
    assert((5841250740618567736int * 5841250740618567736int) % 13835058055275898369int == 9483389907537829130int);
    assert((13835058055275898369int - 4351668147738069239int) % 13835058055275898369int == 9483389907537829130int);
}

proof fn lemma_tz_square_55()
    ensures
        (tz(110) * tz(110)) % q() == tz(55),
        (tz(111) * tz(111)) % q() == (q() - tz(55)) % q(),
{
    reveal(zeta_spec);
    assert(ZETAS@[55] == 6674403165336970061i128);
    assert(zeta_spec(55) == 6674403165336970061);
    assert((6674403165336970061int * 1271475462236046151int) % 13835058055275898369int == 12086123364621788126int);
    assert(tz(55) == 12086123364621788126);
    assert(ZETAS@[110] == 2580699593472304997i128);
    assert(zeta_spec(110) == 2580699593472304997);
    assert((2580699593472304997int * 1271475462236046151int) % 13835058055275898369int == 8285567775675408363int);
    assert(tz(110) == 8285567775675408363);
    assert(ZETAS@[111] == -4201594893426059755i128);
    assert(zeta_spec(111) == 9633463161849838614);
    assert((9633463161849838614int * 1271475462236046151int) % 13835058055275898369int == 1432266409540415560int);
    assert(tz(111) == 1432266409540415560);
    assert((8285567775675408363int * 8285567775675408363int) % 13835058055275898369int == 12086123364621788126int);
    assert((1432266409540415560int * 1432266409540415560int) % 13835058055275898369int == 1748934690654110243int);
    assert((13835058055275898369int - 12086123364621788126int) % 13835058055275898369int == 1748934690654110243int);
}

proof fn lemma_tz_square_56()
    ensures
        (tz(112) * tz(112)) % q() == tz(56),
        (tz(113) * tz(113)) % q() == (q() - tz(56)) % q(),
{
    reveal(zeta_spec);
    assert(ZETAS@[56] == -338581298071975759i128);
    assert(zeta_spec(56) == 13496476757203922610);
    assert((13496476757203922610int * 1271475462236046151int) % 13835058055275898369int == 11026470300303391829int);
    assert(tz(56) == 11026470300303391829);
    assert(ZETAS@[112] == 4176366008162680626i128);
    assert(zeta_spec(112) == 4176366008162680626);
    assert((4176366008162680626int * 1271475462236046151int) % 13835058055275898369int == 11140438206971205209int);
    assert(tz(112) == 11140438206971205209);
    assert(ZETAS@[113] == 2749976035880187188i128);
    assert(zeta_spec(113) == 2749976035880187188);
    assert((2749976035880187188int * 1271475462236046151int) % 13835058055275898369int == 6431029005922750902int);
    assert(tz(113) == 6431029005922750902);
    assert((11140438206971205209int * 11140438206971205209int) % 13835058055275898369int == 11026470300303391829int);
    assert((6431029005922750902int * 6431029005922750902int) % 13835058055275898369int == 2808587754972506540int);
    assert((13835058055275898369int - 11026470300303391829int) % 13835058055275898369int == 2808587754972506540int);
}

proof fn lemma_tz_square_57()
    ensures
        (tz(114) * tz(114)) % q() == tz(57),
        (tz(115) * tz(115)) % q() == (q() - tz(57)) % q(),
{
    reveal(zeta_spec);
    assert(ZETAS@[57] == 2040836476977888315i128);
    assert(zeta_spec(57) == 2040836476977888315);
    assert((2040836476977888315int * 1271475462236046151int) % 13835058055275898369int == 11695384967613506401int);
    assert(tz(57) == 11695384967613506401);
    assert(ZETAS@[114] == -3221175483079064863i128);
    assert(zeta_spec(114) == 10613882572196833506);
    assert((10613882572196833506int * 1271475462236046151int) % 13835058055275898369int == 3031688336729982805int);
    assert(tz(114) == 3031688336729982805);
    assert(ZETAS@[115] == 3864261972939933101i128);
    assert(zeta_spec(115) == 3864261972939933101);
    assert((3864261972939933101int * 1271475462236046151int) % 13835058055275898369int == 2214058830705328540int);
    assert(tz(115) == 2214058830705328540);
    assert((3031688336729982805int * 3031688336729982805int) % 13835058055275898369int == 11695384967613506401int);
    assert((2214058830705328540int * 2214058830705328540int) % 13835058055275898369int == 2139673087662391968int);
    assert((13835058055275898369int - 11695384967613506401int) % 13835058055275898369int == 2139673087662391968int);
}

proof fn lemma_tz_square_58()
    ensures
        (tz(116) * tz(116)) % q() == tz(58),
        (tz(117) * tz(117)) % q() == (q() - tz(58)) % q(),
{
    reveal(zeta_spec);
    assert(ZETAS@[58] == -273191801007909499i128);
    assert(zeta_spec(58) == 13561866254267988870);
    assert((13561866254267988870int * 1271475462236046151int) % 13835058055275898369int == 1012097197680910330int);
    assert(tz(58) == 1012097197680910330);
    assert(ZETAS@[116] == 4915914795301596551i128);
    assert(zeta_spec(116) == 4915914795301596551);
    assert((4915914795301596551int * 1271475462236046151int) % 13835058055275898369int == 5644449904957285482int);
    assert(tz(116) == 5644449904957285482);
    assert(ZETAS@[117] == 4691404023415064847i128);
    assert(zeta_spec(117) == 4691404023415064847);
    assert((4691404023415064847int * 1271475462236046151int) % 13835058055275898369int == 6490320754379090799int);
    assert(tz(117) == 6490320754379090799);
    assert((5644449904957285482int * 5644449904957285482int) % 13835058055275898369int == 1012097197680910330int);
    assert((6490320754379090799int * 6490320754379090799int) % 13835058055275898369int == 12822960857594988039int);
    assert((13835058055275898369int - 1012097197680910330int) % 13835058055275898369int == 12822960857594988039int);
}

proof fn lemma_tz_square_59()
    ensures
        (tz(118) * tz(118)) % q() == tz(59),
        (tz(119) * tz(119)) % q() == (q() - tz(59)) % q(),
{
    reveal(zeta_spec);
    assert(ZETAS@[59] == -2656845851757036308i128);
    assert(zeta_spec(59) == 11178212203518862061);
    assert((11178212203518862061int * 1271475462236046151int) % 13835058055275898369int == 5840081798142246220int);
    assert(tz(59) == 5840081798142246220);
    assert(ZETAS@[118] == -2009294716216636780i128);
    assert(zeta_spec(118) == 11825763339059261589);
    assert((11825763339059261589int * 1271475462236046151int) % 13835058055275898369int == 6308125083393112856int);
    assert(tz(118) == 6308125083393112856);
    assert(ZETAS@[119] == -6666406931716436834i128);
    assert(zeta_spec(119) == 7168651123559461535);
    assert((7168651123559461535int * 1271475462236046151int) % 13835058055275898369int == 10647571454910028327int);
    assert(tz(119) == 10647571454910028327);
    assert((6308125083393112856int * 6308125083393112856int) % 13835058055275898369int == 5840081798142246220int);
    assert((10647571454910028327int * 10647571454910028327int) % 13835058055275898369int == 7994976257133652149int);
    assert((13835058055275898369int - 5840081798142246220int) % 13835058055275898369int == 7994976257133652149int);
}

proof fn lemma_tz_square_60()
    ensures
        (tz(120) * tz(120)) % q() == tz(60),
        (tz(121) * tz(121)) % q() == (q() - tz(60)) % q(),
{
    reveal(zeta_spec);
    assert(ZETAS@[60] == -44711985415143478i128);
    assert(zeta_spec(60) == 13790346069860754891);
    assert((13790346069860754891int * 1271475462236046151int) % 13835058055275898369int == 4246780295295792300int);
    assert(tz(60) == 4246780295295792300);
    assert(ZETAS@[120] == 75700364447871879i128);
    assert(zeta_spec(120) == 75700364447871879);
    assert((75700364447871879int * 1271475462236046151int) % 13835058055275898369int == 7694995203203355784int);
    assert(tz(120) == 7694995203203355784);
    assert(ZETAS@[121] == -6382679092994900854i128);
    assert(zeta_spec(121) == 7452378962280997515);
    assert((7452378962280997515int * 1271475462236046151int) % 13835058055275898369int == 8384354981491494862int);
    assert(tz(121) == 8384354981491494862);
    assert((7694995203203355784int * 7694995203203355784int) % 13835058055275898369int == 4246780295295792300int);
    assert((8384354981491494862int * 8384354981491494862int) % 13835058055275898369int == 9588277759980106069int);
    assert((13835058055275898369int - 4246780295295792300int) % 13835058055275898369int == 9588277759980106069int);
}

proof fn lemma_tz_square_61()
    ensures
        (tz(122) * tz(122)) % q() == tz(61),
        (tz(123) * tz(123)) % q() == (q() - tz(61)) % q(),
{
    reveal(zeta_spec);
    assert(ZETAS@[61] == 6353563406977357718i128);
    assert(zeta_spec(61) == 6353563406977357718);
    assert((6353563406977357718int * 1271475462236046151int) % 13835058055275898369int == 229008672549633075int);
    assert(tz(61) == 229008672549633075);
    assert(ZETAS@[122] == -1821567887061005068i128);
    assert(zeta_spec(122) == 12013490168214893301);
    assert((12013490168214893301int * 1271475462236046151int) % 13835058055275898369int == 11917058471355635507int);
    assert(tz(122) == 11917058471355635507);
    assert(ZETAS@[123] == 6856719230399980910i128);
    assert(zeta_spec(123) == 6856719230399980910);
    assert((6856719230399980910int * 1271475462236046151int) % 13835058055275898369int == 1044355820116945787int);
    assert(tz(123) == 1044355820116945787);
    assert((11917058471355635507int * 11917058471355635507int) % 13835058055275898369int == 229008672549633075int);
    assert((1044355820116945787int * 1044355820116945787int) % 13835058055275898369int == 13606049382726265294int);
    assert((13835058055275898369int - 229008672549633075int) % 13835058055275898369int == 13606049382726265294int);
}

proof fn lemma_tz_square_62()
    ensures
        (tz(124) * tz(124)) % q() == tz(62),
        (tz(125) * tz(125)) % q() == (q() - tz(62)) % q(),
{
    reveal(zeta_spec);
    assert(ZETAS@[62] == 3031822331272221894i128);
    assert(zeta_spec(62) == 3031822331272221894);
    assert((3031822331272221894int * 1271475462236046151int) % 13835058055275898369int == 6084479256416108563int);
    assert(tz(62) == 6084479256416108563);
    assert(ZETAS@[124] == 1577653652171756991i128);
    assert(zeta_spec(124) == 1577653652171756991);
    assert((1577653652171756991int * 1271475462236046151int) % 13835058055275898369int == 3113565226666319704int);
    assert(tz(124) == 3113565226666319704);
    assert(ZETAS@[125] == 393060495186118832i128);
    assert(zeta_spec(125) == 393060495186118832);
    assert((393060495186118832int * 1271475462236046151int) % 13835058055275898369int == 3533896516780758548int);
    assert(tz(125) == 3533896516780758548);
    assert((3113565226666319704int * 3113565226666319704int) % 13835058055275898369int == 6084479256416108563int);
    assert((3533896516780758548int * 3533896516780758548int) % 13835058055275898369int == 7750578798859789806int);
    assert((13835058055275898369int - 6084479256416108563int) % 13835058055275898369int == 7750578798859789806int);
}

proof fn lemma_tz_square_63()
    ensures
        (tz(126) * tz(126)) % q() == tz(63),
        (tz(127) * tz(127)) % q() == (q() - tz(63)) % q(),
{
    reveal(zeta_spec);
    assert(ZETAS@[63] == -762779014219402480i128);
    assert(zeta_spec(63) == 13072279041056495889);
    assert((13072279041056495889int * 1271475462236046151int) % 13835058055275898369int == 9710263513832740967int);
    assert(tz(63) == 9710263513832740967);
    assert(ZETAS@[126] == -701047631524101030i128);
    assert(zeta_spec(126) == 13134010423751797339);
    assert((13134010423751797339int * 1271475462236046151int) % 13835058055275898369int == 11037825313977023488int);
    assert(tz(126) == 11037825313977023488);
    assert(ZETAS@[127] == -313778452114125462i128);
    assert(zeta_spec(127) == 13521279603161772907);
    assert((13521279603161772907int * 1271475462236046151int) % 13835058055275898369int == 5088512994226497905int);
    assert(tz(127) == 5088512994226497905);
    assert((11037825313977023488int * 11037825313977023488int) % 13835058055275898369int == 9710263513832740967int);
    assert((5088512994226497905int * 5088512994226497905int) % 13835058055275898369int == 4124794541443157402int);
    assert((13835058055275898369int - 9710263513832740967int) % 13835058055275898369int == 4124794541443157402int);
}

/// The zetas of a layer square to the moduli of the level above.
proof fn lemma_tz_square(kk: int)
    requires
        1 <= kk < 64,
    ensures
        (tz(2 * kk) * tz(2 * kk)) % q() == tz(kk),
        (tz(2 * kk + 1) * tz(2 * kk + 1)) % q() == (q() - tz(kk)) % q(),
{
    if kk == 1 {
        lemma_tz_square_1();
    } else if kk == 2 {
        lemma_tz_square_2();
    } else if kk == 3 {
        lemma_tz_square_3();
    } else if kk == 4 {
        lemma_tz_square_4();
    } else if kk == 5 {
        lemma_tz_square_5();
    } else if kk == 6 {
        lemma_tz_square_6();
    } else if kk == 7 {
        lemma_tz_square_7();
    } else if kk == 8 {
        lemma_tz_square_8();
    } else if kk == 9 {
        lemma_tz_square_9();
    } else if kk == 10 {
        lemma_tz_square_10();
    } else if kk == 11 {
        lemma_tz_square_11();
    } else if kk == 12 {
        lemma_tz_square_12();
    } else if kk == 13 {
        lemma_tz_square_13();
    } else if kk == 14 {
        lemma_tz_square_14();
    } else if kk == 15 {
        lemma_tz_square_15();
    } else if kk == 16 {
        lemma_tz_square_16();
    } else if kk == 17 {
        lemma_tz_square_17();
    } else if kk == 18 {
        lemma_tz_square_18();
    } else if kk == 19 {
        lemma_tz_square_19();
    } else if kk == 20 {
        lemma_tz_square_20();
    } else if kk == 21 {
        lemma_tz_square_21();
    } else if kk == 22 {
        lemma_tz_square_22();
    } else if kk == 23 {
        lemma_tz_square_23();
    } else if kk == 24 {
        lemma_tz_square_24();
    } else if kk == 25 {
        lemma_tz_square_25();
    } else if kk == 26 {
        lemma_tz_square_26();
    } else if kk == 27 {
        lemma_tz_square_27();
    } else if kk == 28 {
        lemma_tz_square_28();
    } else if kk == 29 {
        lemma_tz_square_29();
    } else if kk == 30 {
        lemma_tz_square_30();
    } else if kk == 31 {
        lemma_tz_square_31();
    } else if kk == 32 {
        lemma_tz_square_32();
    } else if kk == 33 {
        lemma_tz_square_33();
    } else if kk == 34 {
        lemma_tz_square_34();
    } else if kk == 35 {
        lemma_tz_square_35();
    } else if kk == 36 {
        lemma_tz_square_36();
    } else if kk == 37 {
        lemma_tz_square_37();
    } else if kk == 38 {
        lemma_tz_square_38();
    } else if kk == 39 {
        lemma_tz_square_39();
    } else if kk == 40 {
        lemma_tz_square_40();
    } else if kk == 41 {
        lemma_tz_square_41();
    } else if kk == 42 {
        lemma_tz_square_42();
    } else if kk == 43 {
        lemma_tz_square_43();
    } else if kk == 44 {
        lemma_tz_square_44();
    } else if kk == 45 {
        lemma_tz_square_45();
    } else if kk == 46 {
        lemma_tz_square_46();
    } else if kk == 47 {
        lemma_tz_square_47();
    } else if kk == 48 {
        lemma_tz_square_48();
    } else if kk == 49 {
        lemma_tz_square_49();
    } else if kk == 50 {
        lemma_tz_square_50();
    } else if kk == 51 {
        lemma_tz_square_51();
    } else if kk == 52 {
        lemma_tz_square_52();
    } else if kk == 53 {
        lemma_tz_square_53();
    } else if kk == 54 {
        lemma_tz_square_54();
    } else if kk == 55 {
        lemma_tz_square_55();
    } else if kk == 56 {
        lemma_tz_square_56();
    } else if kk == 57 {
        lemma_tz_square_57();
    } else if kk == 58 {
        lemma_tz_square_58();
    } else if kk == 59 {
        lemma_tz_square_59();
    } else if kk == 60 {
        lemma_tz_square_60();
    } else if kk == 61 {
        lemma_tz_square_61();
    } else if kk == 62 {
        lemma_tz_square_62();
    } else if kk == 63 {
        lemma_tz_square_63();
    }
}

/// A square root of the modulus of each block of the last level.
pub open spec fn block_root(c: int) -> int {
    if c < 64 {
        if c < 32 {
            if c < 16 {
                if c < 8 {
                    if c < 4 {
                        if c < 2 {
                            if c < 1 {
                                10994687040701541172
                            } else {
                                2307092915586073517
                            }
                        } else {
                            if c < 3 {
                                13337285199457696701
                            } else {
                                5579503446529795336
                            }
                        }
                    } else {
                        if c < 6 {
                            if c < 5 {
                                13009974473102628866
                            } else {
                                6773866202296314221
                            }
                        } else {
                            if c < 7 {
                                3621971673884245686
                            } else {
                                4769758705957636648
                            }
                        }
                    }
                } else {
                    if c < 12 {
                        if c < 10 {
                            if c < 9 {
                                7446388754136991543
                            } else {
                                1810870454708048677
                            }
                        } else {
                            if c < 11 {
                                6477584833028440498
                            } else {
                                8146011810239376695
                            }
                        }
                    } else {
                        if c < 14 {
                            if c < 13 {
                                2659125983569431470
                            } else {
                                7187587999845076925
                            }
                        } else {
                            if c < 15 {
                                4945524363090467860
                            } else {
                                11042142937745085828
                            }
                        }
                    }
                }
            } else {
                if c < 24 {
                    if c < 20 {
                        if c < 18 {
                            if c < 17 {
                                3272402645746593529
                            } else {
                                7163756130611255785
                            }
                        } else {
                            if c < 19 {
                                7271224664306090588
                            } else {
                                9058309208106521146
                            }
                        }
                    } else {
                        if c < 22 {
                            if c < 21 {
                                1027800644130318279
                            } else {
                                1103829982507644327
                            }
                        } else {
                            if c < 23 {
                                7870066568357852284
                            } else {
                                7435976234415973979
                            }
                        }
                    }
                } else {
                    if c < 28 {
                        if c < 26 {
                            if c < 25 {
                                9172579816359964884
                            } else {
                                5002730406709921431
                            }
                        } else {
                            if c < 27 {
                                4436513892155833661
                            } else {
                                11636111295915015729
                            }
                        }
                    } else {
                        if c < 30 {
                            if c < 29 {
                                1838566096077196644
                            } else {
                                6991070072538207493
                            }
                        } else {
                            if c < 31 {
                                8097705217559644482
                            } else {
                                3539204082383932558
                            }
                        }
                    }
                }
            }
        } else {
            if c < 48 {
                if c < 40 {
                    if c < 36 {
                        if c < 34 {
                            if c < 33 {
                                6140296668586611301
                            } else {
                                8839805324170259764
                            }
                        } else {
                            if c < 35 {
                                10596669688781684102
                            } else {
                                4949287449190686022
                            }
                        }
                    } else {
                        if c < 38 {
                            if c < 37 {
                                13645084550716416655
                            } else {
                                2908948747961273513
                            }
                        } else {
                            if c < 39 {
                                8248559280305656654
                            } else {
                                13575882193045140363
                            }
                        }
                    }
                } else {
                    if c < 44 {
                        if c < 42 {
                            if c < 41 {
                                1420840113772903082
                            } else {
                                9340660185278864980
                            }
                        } else {
                            if c < 43 {
                                6856917554139440785
                            } else {
                                5532934394393273242
                            }
                        }
                    } else {
                        if c < 46 {
                            if c < 45 {
                                6324297977981049922
                            } else {
                                12353868229937830096
                            }
                        } else {
                            if c < 47 {
                                5669885106912977167
                            } else {
                                3919000499179056311
                            }
                        }
                    }
                }
            } else {
                if c < 56 {
                    if c < 52 {
                        if c < 50 {
                            if c < 49 {
                                11209659424086941995
                            } else {
                                1906113255990230477
                            }
                        } else {
                            if c < 51 {
                                8217257758369641497
                            } else {
                                9532783283680328894
                            }
                        }
                    } else {
                        if c < 54 {
                            if c < 53 {
                                7016903870695406576
                            } else {
                                2114119021520138469
                            }
                        } else {
                            if c < 55 {
                                11857575738784353771
                            } else {
                                1376948479384030770
                            }
                        }
                    }
                } else {
                    if c < 60 {
                        if c < 58 {
                            if c < 57 {
                                11755042814425506897
                            } else {
                                11052214697381170757
                            }
                        } else {
                            if c < 59 {
                                1152016152326961315
                            } else {
                                4416027582700103204
                            }
                        }
                    } else {
                        if c < 62 {
                            if c < 61 {
                                4381941490820881351
                            } else {
                                9909835143685317958
                            }
                        } else {
                            if c < 63 {
                                3785949432092938259
                            } else {
                                7066267244997628915
                            }
                        }
                    }
                }
            }
        }
    } else {
        if c < 96 {
            if c < 80 {
                if c < 72 {
                    if c < 68 {
                        if c < 66 {
                            if c < 65 {
                                9760329345779921499
                            } else {
                                13688193010417146167
                            }
                        } else {
                            if c < 67 {
                                9135634457387714036
                            } else {
                                10451751983444024031
                            }
                        }
                    } else {
                        if c < 70 {
                            if c < 69 {
                                6769547380390449087
                            } else {
                                8220774125030178729
                            }
                        } else {
                            if c < 71 {
                                2005037941407484254
                            } else {
                                8750232708107181435
                            }
                        }
                    }
                } else {
                    if c < 76 {
                        if c < 74 {
                            if c < 73 {
                                11999271921751961886
                            } else {
                                3526353418173883504
                            }
                        } else {
                            if c < 75 {
                                644609568424049603
                            } else {
                                9044113611131073073
                            }
                        }
                    } else {
                        if c < 78 {
                            if c < 77 {
                                10377153483483375752
                            } else {
                                8475934530778911396
                            }
                        } else {
                            if c < 79 {
                                793826096053612405
                            } else {
                                3924742013313778994
                            }
                        }
                    }
                }
            } else {
                if c < 88 {
                    if c < 84 {
                        if c < 82 {
                            if c < 81 {
                                13393421477722686406
                            } else {
                                12448257809982270834
                            }
                        } else {
                            if c < 83 {
                                12200365485977242038
                            } else {
                                6767236248821371439
                            }
                        }
                    } else {
                        if c < 86 {
                            if c < 85 {
                                12876643701712318490
                            } else {
                                1312810023228009723
                            }
                        } else {
                            if c < 87 {
                                5385277100290462602
                            } else {
                                13108204566249898758
                            }
                        }
                    }
                } else {
                    if c < 92 {
                        if c < 90 {
                            if c < 89 {
                                13352761500337291734
                            } else {
                                11583669704259247835
                            }
                        } else {
                            if c < 91 {
                                12939010169847454881
                            } else {
                                8093655591934138276
                            }
                        }
                    } else {
                        if c < 94 {
                            if c < 93 {
                                10792826662909058792
                            } else {
                                3115741859662251966
                            }
                        } else {
                            if c < 95 {
                                3890079922067377393
                            } else {
                                655966453204133391
                            }
                        }
                    }
                }
            }
        } else {
            if c < 112 {
                if c < 104 {
                    if c < 100 {
                        if c < 98 {
                            if c < 97 {
                                8384277897814807260
                            } else {
                                10156083046992733286
                            }
                        } else {
                            if c < 99 {
                                10396497965923390285
                            } else {
                                9995373287829139337
                            }
                        }
                    } else {
                        if c < 102 {
                            if c < 101 {
                                2965289234349536881
                            } else {
                                1941861414753448549
                            }
                        } else {
                            if c < 103 {
                                3675050133973302737
                            } else {
                                6897611235258049236
                            }
                        }
                    }
                } else {
                    if c < 108 {
                        if c < 106 {
                            if c < 105 {
                                5034488508718590452
                            } else {
                                12055337574266861597
                            }
                        } else {
                            if c < 107 {
                                7406224715208479700
                            } else {
                                1713876957436822117
                            }
                        }
                    } else {
                        if c < 110 {
                            if c < 109 {
                                7959515703388380590
                            } else {
                                9339028971072725545
                            }
                        } else {
                            if c < 111 {
                                11685478392084529418
                            } else {
                                104718153027235043
                            }
                        }
                    }
                }
            } else {
                if c < 120 {
                    if c < 116 {
                        if c < 114 {
                            if c < 113 {
                                13351500980847959027
                            } else {
                                8860679966748261825
                            }
                        } else {
                            if c < 115 {
                                7301204975277264027
                            } else {
                                8570884275468377900
                            }
                        }
                    } else {
                        if c < 118 {
                            if c < 117 {
                                271685154886215304
                            } else {
                                7931708674600876044
                            }
                        } else {
                            if c < 119 {
                                11296217705997956918
                            } else {
                                12788514097406766104
                            }
                        }
                    }
                } else {
                    if c < 124 {
                        if c < 122 {
                            if c < 121 {
                                5903130751089305702
                            } else {
                                13780473491716051368
                            }
                        } else {
                            if c < 123 {
                                7407014000413300167
                            } else {
                                6125003572524097715
                            }
                        }
                    } else {
                        if c < 126 {
                            if c < 125 {
                                2363771713976005141
                            } else {
                                12306892792326947584
                            }
                        } else {
                            if c < 127 {
                                6156968658994764555
                            } else {
                                12343079370081563815
                            }
                        }
                    }
                }
            }
        }
    }
}

proof fn lemma_block_root_0()
    ensures
        (block_root(0) * block_root(0)) % q() == level_w(7, 0) % q(),
{
    reveal(zeta_spec);
    assert(ZETAS@[64] == -2372743451200819209i128);
    assert(zeta_spec(64) == 11462314604075079160);
    assert((11462314604075079160int * 1271475462236046151int) % 13835058055275898369int == 4914799530725508435int);
    assert(tz(64) == 4914799530725508435);
    assert(block_root(0) == 10994687040701541172);
    assert(level_w(7, 0) == tz(64));
    assert((10994687040701541172int * 10994687040701541172int) % 13835058055275898369int == 4914799530725508435int);
}

proof fn lemma_block_root_1()
    ensures
        (block_root(1) * block_root(1)) % q() == level_w(7, 1) % q(),
{
    reveal(zeta_spec);
    assert(ZETAS@[64] == -2372743451200819209i128);
    assert(zeta_spec(64) == 11462314604075079160);
    assert((11462314604075079160int * 1271475462236046151int) % 13835058055275898369int == 4914799530725508435int);
    assert(tz(64) == 4914799530725508435);
    assert(block_root(1) == 2307092915586073517);
    assert(level_w(7, 1) == -tz(64));
    lemma_neg_mod(4914799530725508435);
    assert((2307092915586073517int * 2307092915586073517int) % 13835058055275898369int == 8920258524550389934int);
}

proof fn lemma_block_root_2()
    ensures
        (block_root(2) * block_root(2)) % q() == level_w(7, 2) % q(),
{
    reveal(zeta_spec);
    assert(ZETAS@[65] == -4479457842878286898i128);
    assert(zeta_spec(65) == 9355600212397611471);
    assert((9355600212397611471int * 1271475462236046151int) % 13835058055275898369int == 8845643568581621848int);
    assert(tz(65) == 8845643568581621848);
    assert(block_root(2) == 13337285199457696701);
    assert(level_w(7, 2) == tz(65));
    assert((13337285199457696701int * 13337285199457696701int) % 13835058055275898369int == 8845643568581621848int);
}

proof fn lemma_block_root_3()
    ensures
        (block_root(3) * block_root(3)) % q() == level_w(7, 3) % q(),
{
    reveal(zeta_spec);
    assert(ZETAS@[65] == -4479457842878286898i128);
    assert(zeta_spec(65) == 9355600212397611471);
    assert((9355600212397611471int * 1271475462236046151int) % 13835058055275898369int == 8845643568581621848int);
    assert(tz(65) == 8845643568581621848);
    assert(block_root(3) == 5579503446529795336);
    assert(level_w(7, 3) == -tz(65));
    lemma_neg_mod(8845643568581621848);
    assert((5579503446529795336int * 5579503446529795336int) % 13835058055275898369int == 4989414486694276521int);
}

proof fn lemma_block_root_4()
    ensures
        (block_root(4) * block_root(4)) % q() == level_w(7, 4) % q(),
{
    reveal(zeta_spec);
    assert(ZETAS@[66] == -5808516804873542315i128);
    assert(zeta_spec(66) == 8026541250402356054);
    assert((8026541250402356054int * 1271475462236046151int) % 13835058055275898369int == 9459607574403837083int);
    assert(tz(66) == 9459607574403837083);
    assert(block_root(4) == 13009974473102628866);
    assert(level_w(7, 4) == tz(66));
    assert((13009974473102628866int * 13009974473102628866int) % 13835058055275898369int == 9459607574403837083int);
}

proof fn lemma_block_root_5()
    ensures
        (block_root(5) * block_root(5)) % q() == level_w(7, 5) % q(),
{
    reveal(zeta_spec);
    assert(ZETAS@[66] == -5808516804873542315i128);
    assert(zeta_spec(66) == 8026541250402356054);
    assert((8026541250402356054int * 1271475462236046151int) % 13835058055275898369int == 9459607574403837083int);
    assert(tz(66) == 9459607574403837083);
    assert(block_root(5) == 6773866202296314221);
    assert(level_w(7, 5) == -tz(66));
    lemma_neg_mod(9459607574403837083);
    assert((6773866202296314221int * 6773866202296314221int) % 13835058055275898369int == 4375450480872061286int);
}

proof fn lemma_block_root_6()
    ensures
        (block_root(6) * block_root(6)) % q() == level_w(7, 6) % q(),
{
    reveal(zeta_spec);
    assert(ZETAS@[67] == 5202493321066001563i128);
    assert(zeta_spec(67) == 5202493321066001563);
    assert((5202493321066001563int * 1271475462236046151int) % 13835058055275898369int == 11053060864838895964int);
    assert(tz(67) == 11053060864838895964);
    assert(block_root(6) == 3621971673884245686);
    assert(level_w(7, 6) == tz(67));
    assert((3621971673884245686int * 3621971673884245686int) % 13835058055275898369int == 11053060864838895964int);
}

proof fn lemma_block_root_7()
    ensures
        (block_root(7) * block_root(7)) % q() == level_w(7, 7) % q(),
{
    reveal(zeta_spec);
    assert(ZETAS@[67] == 5202493321066001563i128);
    assert(zeta_spec(67) == 5202493321066001563);
    assert((5202493321066001563int * 1271475462236046151int) % 13835058055275898369int == 11053060864838895964int);
    assert(tz(67) == 11053060864838895964);
    assert(block_root(7) == 4769758705957636648);
    assert(level_w(7, 7) == -tz(67));
    lemma_neg_mod(11053060864838895964);
    assert((4769758705957636648int * 4769758705957636648int) % 13835058055275898369int == 2781997190437002405int);
}

proof fn lemma_block_root_8()
    ensures
        (block_root(8) * block_root(8)) % q() == level_w(7, 8) % q(),
{
    reveal(zeta_spec);
    assert(ZETAS@[68] == 2664425064816597460i128);
    assert(zeta_spec(68) == 2664425064816597460);
    assert((2664425064816597460int * 1271475462236046151int) % 13835058055275898369int == 11571318526178500903int);
    assert(tz(68) == 11571318526178500903);
    assert(block_root(8) == 7446388754136991543);
    assert(level_w(7, 8) == tz(68));
    assert((7446388754136991543int * 7446388754136991543int) % 13835058055275898369int == 11571318526178500903int);
}

proof fn lemma_block_root_9()
    ensures
        (block_root(9) * block_root(9)) % q() == level_w(7, 9) % q(),
{
    reveal(zeta_spec);
    assert(ZETAS@[68] == 2664425064816597460i128);
    assert(zeta_spec(68) == 2664425064816597460);
    assert((2664425064816597460int * 1271475462236046151int) % 13835058055275898369int == 11571318526178500903int);
    assert(tz(68) == 11571318526178500903);
    assert(block_root(9) == 1810870454708048677);
    assert(level_w(7, 9) == -tz(68));
    lemma_neg_mod(11571318526178500903);
    assert((1810870454708048677int * 1810870454708048677int) % 13835058055275898369int == 2263739529097397466int);
}

proof fn lemma_block_root_10()
    ensures
        (block_root(10) * block_root(10)) % q() == level_w(7, 10) % q(),
{
    reveal(zeta_spec);
    assert(ZETAS@[69] == 4127525199519907716i128);
    assert(zeta_spec(69) == 4127525199519907716);
    assert((4127525199519907716int * 1271475462236046151int) % 13835058055275898369int == 4190643123838082351int);
    assert(tz(69) == 4190643123838082351);
    assert(block_root(10) == 6477584833028440498);
    assert(level_w(7, 10) == tz(69));
    assert((6477584833028440498int * 6477584833028440498int) % 13835058055275898369int == 4190643123838082351int);
}

proof fn lemma_block_root_11()
    ensures
        (block_root(11) * block_root(11)) % q() == level_w(7, 11) % q(),
{
    reveal(zeta_spec);
    assert(ZETAS@[69] == 4127525199519907716i128);
    assert(zeta_spec(69) == 4127525199519907716);
    assert((4127525199519907716int * 1271475462236046151int) % 13835058055275898369int == 4190643123838082351int);
    assert(tz(69) == 4190643123838082351);
    assert(block_root(11) == 8146011810239376695);
    assert(level_w(7, 11) == -tz(69));
    lemma_neg_mod(4190643123838082351);
    assert((8146011810239376695int * 8146011810239376695int) % 13835058055275898369int == 9644414931437816018int);
}

proof fn lemma_block_root_12()
    ensures
        (block_root(12) * block_root(12)) % q() == level_w(7, 12) % q(),
{
    reveal(zeta_spec);
    assert(ZETAS@[70] == -5367643274131333069i128);
    assert(zeta_spec(70) == 8467414781144565300);
    assert((8467414781144565300int * 1271475462236046151int) % 13835058055275898369int == 8697249334011350030int);
    assert(tz(70) == 8697249334011350030);
    assert(block_root(12) == 2659125983569431470);
    assert(level_w(7, 12) == tz(70));
    assert((2659125983569431470int * 2659125983569431470int) % 13835058055275898369int == 8697249334011350030int);
}

proof fn lemma_block_root_13()
    ensures
        (block_root(13) * block_root(13)) % q() == level_w(7, 13) % q(),
{
    reveal(zeta_spec);
    assert(ZETAS@[70] == -5367643274131333069i128);
    assert(zeta_spec(70) == 8467414781144565300);
    assert((8467414781144565300int * 1271475462236046151int) % 13835058055275898369int == 8697249334011350030int);
    assert(tz(70) == 8697249334011350030);
    assert(block_root(13) == 7187587999845076925);
    assert(level_w(7, 13) == -tz(70));
    lemma_neg_mod(8697249334011350030);
    assert((7187587999845076925int * 7187587999845076925int) % 13835058055275898369int == 5137808721264548339int);
}

proof fn lemma_block_root_14()
    ensures
        (block_root(14) * block_root(14)) % q() == level_w(7, 14) % q(),
{
    reveal(zeta_spec);
    assert(ZETAS@[71] == -2101288124888178948i128);
    assert(zeta_spec(71) == 11733769930387719421);
    assert((11733769930387719421int * 1271475462236046151int) % 13835058055275898369int == 6650195545353093804int);
    assert(tz(71) == 6650195545353093804);
    assert(block_root(14) == 4945524363090467860);
    assert(level_w(7, 14) == tz(71));
    assert((4945524363090467860int * 4945524363090467860int) % 13835058055275898369int == 6650195545353093804int);
}

proof fn lemma_block_root_15()
    ensures
        (block_root(15) * block_root(15)) % q() == level_w(7, 15) % q(),
{
    reveal(zeta_spec);
    assert(ZETAS@[71] == -2101288124888178948i128);
    assert(zeta_spec(71) == 11733769930387719421);
    assert((11733769930387719421int * 1271475462236046151int) % 13835058055275898369int == 6650195545353093804int);
    assert(tz(71) == 6650195545353093804);
    assert(block_root(15) == 11042142937745085828);
    assert(level_w(7, 15) == -tz(71));
    lemma_neg_mod(6650195545353093804);
    assert((11042142937745085828int * 11042142937745085828int) % 13835058055275898369int == 7184862509922804565int);
}

proof fn lemma_block_root_16()
    ensures
        (block_root(16) * block_root(16)) % q() == level_w(7, 16) % q(),
{
    reveal(zeta_spec);
    assert(ZETAS@[72] == -2164111735454328589i128);
    assert(zeta_spec(72) == 11670946319821569780);
    assert((11670946319821569780int * 1271475462236046151int) % 13835058055275898369int == 7524818683905534849int);
    assert(tz(72) == 7524818683905534849);
    assert(block_root(16) == 3272402645746593529);
    assert(level_w(7, 16) == tz(72));
    assert((3272402645746593529int * 3272402645746593529int) % 13835058055275898369int == 7524818683905534849int);
}

proof fn lemma_block_root_17()
    ensures
        (block_root(17) * block_root(17)) % q() == level_w(7, 17) % q(),
{
    reveal(zeta_spec);
    assert(ZETAS@[72] == -2164111735454328589i128);
    assert(zeta_spec(72) == 11670946319821569780);
    assert((11670946319821569780int * 1271475462236046151int) % 13835058055275898369int == 7524818683905534849int);
    assert(tz(72) == 7524818683905534849);
    assert(block_root(17) == 7163756130611255785);
    assert(level_w(7, 17) == -tz(72));
    lemma_neg_mod(7524818683905534849);
    assert((7163756130611255785int * 7163756130611255785int) % 13835058055275898369int == 6310239371370363520int);
}

proof fn lemma_block_root_18()
    ensures
        (block_root(18) * block_root(18)) % q() == level_w(7, 18) % q(),
{
    reveal(zeta_spec);
    assert(ZETAS@[73] == 3426632667190719615i128);
    assert(zeta_spec(73) == 3426632667190719615);
    assert((3426632667190719615int * 1271475462236046151int) % 13835058055275898369int == 6534146519168750932int);
    assert(tz(73) == 6534146519168750932);
    assert(block_root(18) == 7271224664306090588);
    assert(level_w(7, 18) == tz(73));
    assert((7271224664306090588int * 7271224664306090588int) % 13835058055275898369int == 6534146519168750932int);
}

proof fn lemma_block_root_19()
    ensures
        (block_root(19) * block_root(19)) % q() == level_w(7, 19) % q(),
{
    reveal(zeta_spec);
    assert(ZETAS@[73] == 3426632667190719615i128);
    assert(zeta_spec(73) == 3426632667190719615);
    assert((3426632667190719615int * 1271475462236046151int) % 13835058055275898369int == 6534146519168750932int);
    assert(tz(73) == 6534146519168750932);
    assert(block_root(19) == 9058309208106521146);
    assert(level_w(7, 19) == -tz(73));
    lemma_neg_mod(6534146519168750932);
    assert((9058309208106521146int * 9058309208106521146int) % 13835058055275898369int == 7300911536107147437int);
}

proof fn lemma_block_root_20()
    ensures
        (block_root(20) * block_root(20)) % q() == level_w(7, 20) % q(),
{
    reveal(zeta_spec);
    assert(ZETAS@[74] == -1449132584730080406i128);
    assert(zeta_spec(74) == 12385925470545817963);
    assert((12385925470545817963int * 1271475462236046151int) % 13835058055275898369int == 5259331692335504580int);
    assert(tz(74) == 5259331692335504580);
    assert(block_root(20) == 1027800644130318279);
    assert(level_w(7, 20) == tz(74));
    assert((1027800644130318279int * 1027800644130318279int) % 13835058055275898369int == 5259331692335504580int);
}

proof fn lemma_block_root_21()
    ensures
        (block_root(21) * block_root(21)) % q() == level_w(7, 21) % q(),
{
    reveal(zeta_spec);
    assert(ZETAS@[74] == -1449132584730080406i128);
    assert(zeta_spec(74) == 12385925470545817963);
    assert((12385925470545817963int * 1271475462236046151int) % 13835058055275898369int == 5259331692335504580int);
    assert(tz(74) == 5259331692335504580);
    assert(block_root(21) == 1103829982507644327);
    assert(level_w(7, 21) == -tz(74));
    lemma_neg_mod(5259331692335504580);
    assert((1103829982507644327int * 1103829982507644327int) % 13835058055275898369int == 8575726362940393789int);
}

proof fn lemma_block_root_22()
    ensures
        (block_root(22) * block_root(22)) % q() == level_w(7, 22) % q(),
{
    reveal(zeta_spec);
    assert(ZETAS@[75] == -4033040700149638753i128);
    assert(zeta_spec(75) == 9802017355126259616);
    assert((9802017355126259616int * 1271475462236046151int) % 13835058055275898369int == 13600344253596337534int);
    assert(tz(75) == 13600344253596337534);
    assert(block_root(22) == 7870066568357852284);
    assert(level_w(7, 22) == tz(75));
    assert((7870066568357852284int * 7870066568357852284int) % 13835058055275898369int == 13600344253596337534int);
}

proof fn lemma_block_root_23()
    ensures
        (block_root(23) * block_root(23)) % q() == level_w(7, 23) % q(),
{
    reveal(zeta_spec);
    assert(ZETAS@[75] == -4033040700149638753i128);
    assert(zeta_spec(75) == 9802017355126259616);
    assert((9802017355126259616int * 1271475462236046151int) % 13835058055275898369int == 13600344253596337534int);
    assert(tz(75) == 13600344253596337534);
    assert(block_root(23) == 7435976234415973979);
    assert(level_w(7, 23) == -tz(75));
    lemma_neg_mod(13600344253596337534);
    assert((7435976234415973979int * 7435976234415973979int) % 13835058055275898369int == 234713801679560835int);
}

proof fn lemma_block_root_24()
    ensures
        (block_root(24) * block_root(24)) % q() == level_w(7, 24) % q(),
{
    reveal(zeta_spec);
    assert(ZETAS@[76] == -4568336411430482635i128);
    assert(zeta_spec(76) == 9266721643845415734);
    assert((9266721643845415734int * 1271475462236046151int) % 13835058055275898369int == 7982541635113526171int);
    assert(tz(76) == 7982541635113526171);
    assert(block_root(24) == 9172579816359964884);
    assert(level_w(7, 24) == tz(76));
    assert((9172579816359964884int * 9172579816359964884int) % 13835058055275898369int == 7982541635113526171int);
}

proof fn lemma_block_root_25()
    ensures
        (block_root(25) * block_root(25)) % q() == level_w(7, 25) % q(),
{
    reveal(zeta_spec);
    assert(ZETAS@[76] == -4568336411430482635i128);
    assert(zeta_spec(76) == 9266721643845415734);
    assert((9266721643845415734int * 1271475462236046151int) % 13835058055275898369int == 7982541635113526171int);
    assert(tz(76) == 7982541635113526171);
    assert(block_root(25) == 5002730406709921431);
    assert(level_w(7, 25) == -tz(76));
    lemma_neg_mod(7982541635113526171);
    assert((5002730406709921431int * 5002730406709921431int) % 13835058055275898369int == 5852516420162372198int);
}

proof fn lemma_block_root_26()
    ensures
        (block_root(26) * block_root(26)) % q() == level_w(7, 26) % q(),
{
    reveal(zeta_spec);
    assert(ZETAS@[77] == 5475667053731798313i128);
    assert(zeta_spec(77) == 5475667053731798313);
    assert((5475667053731798313int * 1271475462236046151int) % 13835058055275898369int == 9033797321583660541int);
    assert(tz(77) == 9033797321583660541);
    assert(block_root(26) == 4436513892155833661);
    assert(level_w(7, 26) == tz(77));
    assert((4436513892155833661int * 4436513892155833661int) % 13835058055275898369int == 9033797321583660541int);
}

proof fn lemma_block_root_27()
    ensures
        (block_root(27) * block_root(27)) % q() == level_w(7, 27) % q(),
{
    reveal(zeta_spec);
    assert(ZETAS@[77] == 5475667053731798313i128);
    assert(zeta_spec(77) == 5475667053731798313);
    assert((5475667053731798313int * 1271475462236046151int) % 13835058055275898369int == 9033797321583660541int);
    assert(tz(77) == 9033797321583660541);
    assert(block_root(27) == 11636111295915015729);
    assert(level_w(7, 27) == -tz(77));
    lemma_neg_mod(9033797321583660541);
    assert((11636111295915015729int * 11636111295915015729int) % 13835058055275898369int == 4801260733692237828int);
}

proof fn lemma_block_root_28()
    ensures
        (block_root(28) * block_root(28)) % q() == level_w(7, 28) % q(),
{
    reveal(zeta_spec);
    assert(ZETAS@[78] == 4835718490655127805i128);
    assert(zeta_spec(78) == 4835718490655127805);
    assert((4835718490655127805int * 1271475462236046151int) % 13835058055275898369int == 11924141480683706917int);
    assert(tz(78) == 11924141480683706917);
    assert(block_root(28) == 1838566096077196644);
    assert(level_w(7, 28) == tz(78));
    assert((1838566096077196644int * 1838566096077196644int) % 13835058055275898369int == 11924141480683706917int);
}

proof fn lemma_block_root_29()
    ensures
        (block_root(29) * block_root(29)) % q() == level_w(7, 29) % q(),
{
    reveal(zeta_spec);
    assert(ZETAS@[78] == 4835718490655127805i128);
    assert(zeta_spec(78) == 4835718490655127805);
    assert((4835718490655127805int * 1271475462236046151int) % 13835058055275898369int == 11924141480683706917int);
    assert(tz(78) == 11924141480683706917);
    assert(block_root(29) == 6991070072538207493);
    assert(level_w(7, 29) == -tz(78));
    lemma_neg_mod(11924141480683706917);
    assert((6991070072538207493int * 6991070072538207493int) % 13835058055275898369int == 1910916574592191452int);
}

proof fn lemma_block_root_30()
    ensures
        (block_root(30) * block_root(30)) % q() == level_w(7, 30) % q(),
{
    reveal(zeta_spec);
    assert(ZETAS@[79] == -3262171357217770981i128);
    assert(zeta_spec(79) == 10572886698058127388);
    assert((10572886698058127388int * 1271475462236046151int) % 13835058055275898369int == 3574095597933680999int);
    assert(tz(79) == 3574095597933680999);
    assert(block_root(30) == 8097705217559644482);
    assert(level_w(7, 30) == tz(79));
    assert((8097705217559644482int * 8097705217559644482int) % 13835058055275898369int == 3574095597933680999int);
}

proof fn lemma_block_root_31()
    ensures
        (block_root(31) * block_root(31)) % q() == level_w(7, 31) % q(),
{
    reveal(zeta_spec);
    assert(ZETAS@[79] == -3262171357217770981i128);
    assert(zeta_spec(79) == 10572886698058127388);
    assert((10572886698058127388int * 1271475462236046151int) % 13835058055275898369int == 3574095597933680999int);
    assert(tz(79) == 3574095597933680999);
    assert(block_root(31) == 3539204082383932558);
    assert(level_w(7, 31) == -tz(79));
    lemma_neg_mod(3574095597933680999);
    assert((3539204082383932558int * 3539204082383932558int) % 13835058055275898369int == 10260962457342217370int);
}

proof fn lemma_block_root_32()
    ensures
        (block_root(32) * block_root(32)) % q() == level_w(7, 32) % q(),
{
    reveal(zeta_spec);
    assert(ZETAS@[80] == -721708503450034379i128);
    assert(zeta_spec(80) == 13113349551825863990);
    assert((13113349551825863990int * 1271475462236046151int) % 13835058055275898369int == 3393610723079773146int);
    assert(tz(80) == 3393610723079773146);
    assert(block_root(32) == 6140296668586611301);
    assert(level_w(7, 32) == tz(80));
    assert((6140296668586611301int * 6140296668586611301int) % 13835058055275898369int == 3393610723079773146int);
}

proof fn lemma_block_root_33()
    ensures
        (block_root(33) * block_root(33)) % q() == level_w(7, 33) % q(),
{
    reveal(zeta_spec);
    assert(ZETAS@[80] == -721708503450034379i128);
    assert(zeta_spec(80) == 13113349551825863990);
    assert((13113349551825863990int * 1271475462236046151int) % 13835058055275898369int == 3393610723079773146int);
    assert(tz(80) == 3393610723079773146);
    assert(block_root(33) == 8839805324170259764);
    assert(level_w(7, 33) == -tz(80));
    lemma_neg_mod(3393610723079773146);
    assert((8839805324170259764int * 8839805324170259764int) % 13835058055275898369int == 10441447332196125223int);
}

proof fn lemma_block_root_34()
    ensures
        (block_root(34) * block_root(34)) % q() == level_w(7, 34) % q(),
{
    reveal(zeta_spec);
    assert(ZETAS@[81] == -442230070471120890i128);
    assert(zeta_spec(81) == 13392827984804777479);
    assert((13392827984804777479int * 1271475462236046151int) % 13835058055275898369int == 1671917687836131171int);
    assert(tz(81) == 1671917687836131171);
    assert(block_root(34) == 10596669688781684102);
    assert(level_w(7, 34) == tz(81));
    assert((10596669688781684102int * 10596669688781684102int) % 13835058055275898369int == 1671917687836131171int);
}

proof fn lemma_block_root_35()
    ensures
        (block_root(35) * block_root(35)) % q() == level_w(7, 35) % q(),
{
    reveal(zeta_spec);
    assert(ZETAS@[81] == -442230070471120890i128);
    assert(zeta_spec(81) == 13392827984804777479);
    assert((13392827984804777479int * 1271475462236046151int) % 13835058055275898369int == 1671917687836131171int);
    assert(tz(81) == 1671917687836131171);
    assert(block_root(35) == 4949287449190686022);
    assert(level_w(7, 35) == -tz(81));
    lemma_neg_mod(1671917687836131171);
    assert((4949287449190686022int * 4949287449190686022int) % 13835058055275898369int == 12163140367439767198int);
}

proof fn lemma_block_root_36()
    ensures
        (block_root(36) * block_root(36)) % q() == level_w(7, 36) % q(),
{
    reveal(zeta_spec);
    assert(ZETAS@[82] == 6488316196029542432i128);
    assert(zeta_spec(82) == 6488316196029542432);
    assert((6488316196029542432int * 1271475462236046151int) % 13835058055275898369int == 10292676294020271188int);
    assert(tz(82) == 10292676294020271188);
    assert(block_root(36) == 13645084550716416655);
    assert(level_w(7, 36) == tz(82));
    assert((13645084550716416655int * 13645084550716416655int) % 13835058055275898369int == 10292676294020271188int);
}

proof fn lemma_block_root_37()
    ensures
        (block_root(37) * block_root(37)) % q() == level_w(7, 37) % q(),
{
    reveal(zeta_spec);
    assert(ZETAS@[82] == 6488316196029542432i128);
    assert(zeta_spec(82) == 6488316196029542432);
    assert((6488316196029542432int * 1271475462236046151int) % 13835058055275898369int == 10292676294020271188int);
    assert(tz(82) == 10292676294020271188);
    assert(block_root(37) == 2908948747961273513);
    assert(level_w(7, 37) == -tz(82));
    lemma_neg_mod(10292676294020271188);
    assert((2908948747961273513int * 2908948747961273513int) % 13835058055275898369int == 3542381761255627181int);
}

proof fn lemma_block_root_38()
    ensures
        (block_root(38) * block_root(38)) % q() == level_w(7, 38) % q(),
{
    reveal(zeta_spec);
    assert(ZETAS@[83] == 3668928761566150171i128);
    assert(zeta_spec(83) == 3668928761566150171);
    assert((3668928761566150171int * 1271475462236046151int) % 13835058055275898369int == 13732984431266315646int);
    assert(tz(83) == 13732984431266315646);
    assert(block_root(38) == 8248559280305656654);
    assert(level_w(7, 38) == tz(83));
    assert((8248559280305656654int * 8248559280305656654int) % 13835058055275898369int == 13732984431266315646int);
}

proof fn lemma_block_root_39()
    ensures
        (block_root(39) * block_root(39)) % q() == level_w(7, 39) % q(),
{
    reveal(zeta_spec);
    assert(ZETAS@[83] == 3668928761566150171i128);
    assert(zeta_spec(83) == 3668928761566150171);
    assert((3668928761566150171int * 1271475462236046151int) % 13835058055275898369int == 13732984431266315646int);
    assert(tz(83) == 13732984431266315646);
    assert(block_root(39) == 13575882193045140363);
    assert(level_w(7, 39) == -tz(83));
    lemma_neg_mod(13732984431266315646);
    assert((13575882193045140363int * 13575882193045140363int) % 13835058055275898369int == 102073624009582723int);
}

proof fn lemma_block_root_40()
    ensures
        (block_root(40) * block_root(40)) % q() == level_w(7, 40) % q(),
{
    reveal(zeta_spec);
    assert(ZETAS@[84] == 1879062554842413453i128);
    assert(zeta_spec(84) == 1879062554842413453);
    assert((1879062554842413453int * 1271475462236046151int) % 13835058055275898369int == 3292016700146178000int);
    assert(tz(84) == 3292016700146178000);
    assert(block_root(40) == 1420840113772903082);
    assert(level_w(7, 40) == tz(84));
    assert((1420840113772903082int * 1420840113772903082int) % 13835058055275898369int == 3292016700146178000int);
}

proof fn lemma_block_root_41()
    ensures
        (block_root(41) * block_root(41)) % q() == level_w(7, 41) % q(),
{
    reveal(zeta_spec);
    assert(ZETAS@[84] == 1879062554842413453i128);
    assert(zeta_spec(84) == 1879062554842413453);
    assert((1879062554842413453int * 1271475462236046151int) % 13835058055275898369int == 3292016700146178000int);
    assert(tz(84) == 3292016700146178000);
    assert(block_root(41) == 9340660185278864980);
    assert(level_w(7, 41) == -tz(84));
    lemma_neg_mod(3292016700146178000);
    assert((9340660185278864980int * 9340660185278864980int) % 13835058055275898369int == 10543041355129720369int);
}

proof fn lemma_block_root_42()
    ensures
        (block_root(42) * block_root(42)) % q() == level_w(7, 42) % q(),
{
    reveal(zeta_spec);
    assert(ZETAS@[85] == 6622523374060929081i128);
    assert(zeta_spec(85) == 6622523374060929081);
    assert((6622523374060929081int * 1271475462236046151int) % 13835058055275898369int == 870323491820823743int);
    assert(tz(85) == 870323491820823743);
    assert(block_root(42) == 6856917554139440785);
    assert(level_w(7, 42) == tz(85));
    assert((6856917554139440785int * 6856917554139440785int) % 13835058055275898369int == 870323491820823743int);
}

proof fn lemma_block_root_43()
    ensures
        (block_root(43) * block_root(43)) % q() == level_w(7, 43) % q(),
{
    reveal(zeta_spec);
    assert(ZETAS@[85] == 6622523374060929081i128);
    assert(zeta_spec(85) == 6622523374060929081);
    assert((6622523374060929081int * 1271475462236046151int) % 13835058055275898369int == 870323491820823743int);
    assert(tz(85) == 870323491820823743);
    assert(block_root(43) == 5532934394393273242);
    assert(level_w(7, 43) == -tz(85));
    lemma_neg_mod(870323491820823743);
    assert((5532934394393273242int * 5532934394393273242int) % 13835058055275898369int == 12964734563455074626int);
}

proof fn lemma_block_root_44()
    ensures
        (block_root(44) * block_root(44)) % q() == level_w(7, 44) % q(),
{
    reveal(zeta_spec);
    assert(ZETAS@[86] == 4497823662372655678i128);
    assert(zeta_spec(86) == 4497823662372655678);
    assert((4497823662372655678int * 1271475462236046151int) % 13835058055275898369int == 7636727711850271762int);
    assert(tz(86) == 7636727711850271762);
    assert(block_root(44) == 6324297977981049922);
    assert(level_w(7, 44) == tz(86));
    assert((6324297977981049922int * 6324297977981049922int) % 13835058055275898369int == 7636727711850271762int);
}

proof fn lemma_block_root_45()
    ensures
        (block_root(45) * block_root(45)) % q() == level_w(7, 45) % q(),
{
    reveal(zeta_spec);
    assert(ZETAS@[86] == 4497823662372655678i128);
    assert(zeta_spec(86) == 4497823662372655678);
    assert((4497823662372655678int * 1271475462236046151int) % 13835058055275898369int == 7636727711850271762int);
    assert(tz(86) == 7636727711850271762);
    assert(block_root(45) == 12353868229937830096);
    assert(level_w(7, 45) == -tz(86));
    lemma_neg_mod(7636727711850271762);
    assert((12353868229937830096int * 12353868229937830096int) % 13835058055275898369int == 6198330343425626607int);
}

proof fn lemma_block_root_46()
    ensures
        (block_root(46) * block_root(46)) % q() == level_w(7, 46) % q(),
{
    reveal(zeta_spec);
    assert(ZETAS@[87] == 2181189622346755299i128);
    assert(zeta_spec(87) == 2181189622346755299);
    assert((2181189622346755299int * 1271475462236046151int) % 13835058055275898369int == 10988312001404831152int);
    assert(tz(87) == 10988312001404831152);
    assert(block_root(46) == 5669885106912977167);
    assert(level_w(7, 46) == tz(87));
    assert((5669885106912977167int * 5669885106912977167int) % 13835058055275898369int == 10988312001404831152int);
}

proof fn lemma_block_root_47()
    ensures
        (block_root(47) * block_root(47)) % q() == level_w(7, 47) % q(),
{
    reveal(zeta_spec);
    assert(ZETAS@[87] == 2181189622346755299i128);
    assert(zeta_spec(87) == 2181189622346755299);
    assert((2181189622346755299int * 1271475462236046151int) % 13835058055275898369int == 10988312001404831152int);
    assert(tz(87) == 10988312001404831152);
    assert(block_root(47) == 3919000499179056311);
    assert(level_w(7, 47) == -tz(87));
    lemma_neg_mod(10988312001404831152);
    assert((3919000499179056311int * 3919000499179056311int) % 13835058055275898369int == 2846746053871067217int);
}

proof fn lemma_block_root_48()
    ensures
        (block_root(48) * block_root(48)) % q() == level_w(7, 48) % q(),
{
    reveal(zeta_spec);
    assert(ZETAS@[88] == 3343598498793886526i128);
    assert(zeta_spec(88) == 3343598498793886526);
    assert((3343598498793886526int * 1271475462236046151int) % 13835058055275898369int == 4518363590319415208int);
    assert(tz(88) == 4518363590319415208);
    assert(block_root(48) == 11209659424086941995);
    assert(level_w(7, 48) == tz(88));
    assert((11209659424086941995int * 11209659424086941995int) % 13835058055275898369int == 4518363590319415208int);
}

proof fn lemma_block_root_49()
    ensures
        (block_root(49) * block_root(49)) % q() == level_w(7, 49) % q(),
{
    reveal(zeta_spec);
    assert(ZETAS@[88] == 3343598498793886526i128);
    assert(zeta_spec(88) == 3343598498793886526);
    assert((3343598498793886526int * 1271475462236046151int) % 13835058055275898369int == 4518363590319415208int);
    assert(tz(88) == 4518363590319415208);
    assert(block_root(49) == 1906113255990230477);
    assert(level_w(7, 49) == -tz(88));
    lemma_neg_mod(4518363590319415208);
    assert((1906113255990230477int * 1906113255990230477int) % 13835058055275898369int == 9316694464956483161int);
}

proof fn lemma_block_root_50()
    ensures
        (block_root(50) * block_root(50)) % q() == level_w(7, 50) % q(),
{
    reveal(zeta_spec);
    assert(ZETAS@[89] == -5832667444522673062i128);
    assert(zeta_spec(89) == 8002390610753225307);
    assert((8002390610753225307int * 1271475462236046151int) % 13835058055275898369int == 9888038638669290484int);
    assert(tz(89) == 9888038638669290484);
    assert(block_root(50) == 8217257758369641497);
    assert(level_w(7, 50) == tz(89));
    assert((8217257758369641497int * 8217257758369641497int) % 13835058055275898369int == 9888038638669290484int);
}

proof fn lemma_block_root_51()
    ensures
        (block_root(51) * block_root(51)) % q() == level_w(7, 51) % q(),
{
    reveal(zeta_spec);
    assert(ZETAS@[89] == -5832667444522673062i128);
    assert(zeta_spec(89) == 8002390610753225307);
    assert((8002390610753225307int * 1271475462236046151int) % 13835058055275898369int == 9888038638669290484int);
    assert(tz(89) == 9888038638669290484);
    assert(block_root(51) == 9532783283680328894);
    assert(level_w(7, 51) == -tz(89));
    lemma_neg_mod(9888038638669290484);
    assert((9532783283680328894int * 9532783283680328894int) % 13835058055275898369int == 3947019416606607885int);
}

proof fn lemma_block_root_52()
    ensures
        (block_root(52) * block_root(52)) % q() == level_w(7, 52) % q(),
{
    reveal(zeta_spec);
    assert(ZETAS@[90] == -5769155328229301819i128);
    assert(zeta_spec(90) == 8065902727046596550);
    assert((8065902727046596550int * 1271475462236046151int) % 13835058055275898369int == 4708579716981226437int);
    assert(tz(90) == 4708579716981226437);
    assert(block_root(52) == 7016903870695406576);
    assert(level_w(7, 52) == tz(90));
    assert((7016903870695406576int * 7016903870695406576int) % 13835058055275898369int == 4708579716981226437int);
}

proof fn lemma_block_root_53()
    ensures
        (block_root(53) * block_root(53)) % q() == level_w(7, 53) % q(),
{
    reveal(zeta_spec);
    assert(ZETAS@[90] == -5769155328229301819i128);
    assert(zeta_spec(90) == 8065902727046596550);
    assert((8065902727046596550int * 1271475462236046151int) % 13835058055275898369int == 4708579716981226437int);
    assert(tz(90) == 4708579716981226437);
    assert(block_root(53) == 2114119021520138469);
    assert(level_w(7, 53) == -tz(90));
    lemma_neg_mod(4708579716981226437);
    assert((2114119021520138469int * 2114119021520138469int) % 13835058055275898369int == 9126478338294671932int);
}

proof fn lemma_block_root_54()
    ensures
        (block_root(54) * block_root(54)) % q() == level_w(7, 54) % q(),
{
    reveal(zeta_spec);
    assert(ZETAS@[91] == -4683268811401307848i128);
    assert(zeta_spec(91) == 9151789243874590521);
    assert((9151789243874590521int * 1271475462236046151int) % 13835058055275898369int == 12324923784855965310int);
    assert(tz(91) == 12324923784855965310);
    assert(block_root(54) == 11857575738784353771);
    assert(level_w(7, 54) == tz(91));
    assert((11857575738784353771int * 11857575738784353771int) % 13835058055275898369int == 12324923784855965310int);
}

proof fn lemma_block_root_55()
    ensures
        (block_root(55) * block_root(55)) % q() == level_w(7, 55) % q(),
{
    reveal(zeta_spec);
    assert(ZETAS@[91] == -4683268811401307848i128);
    assert(zeta_spec(91) == 9151789243874590521);
    assert((9151789243874590521int * 1271475462236046151int) % 13835058055275898369int == 12324923784855965310int);
    assert(tz(91) == 12324923784855965310);
    assert(block_root(55) == 1376948479384030770);
    assert(level_w(7, 55) == -tz(91));
    lemma_neg_mod(12324923784855965310);
    assert((1376948479384030770int * 1376948479384030770int) % 13835058055275898369int == 1510134270419933059int);
}

proof fn lemma_block_root_56()
    ensures
        (block_root(56) * block_root(56)) % q() == level_w(7, 56) % q(),
{
    reveal(zeta_spec);
    assert(ZETAS@[92] == -432338560991021804i128);
    assert(zeta_spec(92) == 13402719494284876565);
    assert((13402719494284876565int * 1271475462236046151int) % 13835058055275898369int == 8515066096868637485int);
    assert(tz(92) == 8515066096868637485);
    assert(block_root(56) == 11755042814425506897);
    assert(level_w(7, 56) == tz(92));
    assert((11755042814425506897int * 11755042814425506897int) % 13835058055275898369int == 8515066096868637485int);
}

proof fn lemma_block_root_57()
    ensures
        (block_root(57) * block_root(57)) % q() == level_w(7, 57) % q(),
{
    reveal(zeta_spec);
    assert(ZETAS@[92] == -432338560991021804i128);
    assert(zeta_spec(92) == 13402719494284876565);
    assert((13402719494284876565int * 1271475462236046151int) % 13835058055275898369int == 8515066096868637485int);
    assert(tz(92) == 8515066096868637485);
    assert(block_root(57) == 11052214697381170757);
    assert(level_w(7, 57) == -tz(92));
    lemma_neg_mod(8515066096868637485);
    assert((11052214697381170757int * 11052214697381170757int) % 13835058055275898369int == 5319991958407260884int);
}

proof fn lemma_block_root_58()
    ensures
        (block_root(58) * block_root(58)) % q() == level_w(7, 58) % q(),
{
    reveal(zeta_spec);
    assert(ZETAS@[93] == -3488522677917641439i128);
    assert(zeta_spec(93) == 10346535377358256930);
    assert((10346535377358256930int * 1271475462236046151int) % 13835058055275898369int == 794329684107693951int);
    assert(tz(93) == 794329684107693951);
    assert(block_root(58) == 1152016152326961315);
    assert(level_w(7, 58) == tz(93));
    assert((1152016152326961315int * 1152016152326961315int) % 13835058055275898369int == 794329684107693951int);
}

proof fn lemma_block_root_59()
    ensures
        (block_root(59) * block_root(59)) % q() == level_w(7, 59) % q(),
{
    reveal(zeta_spec);
    assert(ZETAS@[93] == -3488522677917641439i128);
    assert(zeta_spec(93) == 10346535377358256930);
    assert((10346535377358256930int * 1271475462236046151int) % 13835058055275898369int == 794329684107693951int);
    assert(tz(93) == 794329684107693951);
    assert(block_root(59) == 4416027582700103204);
    assert(level_w(7, 59) == -tz(93));
    lemma_neg_mod(794329684107693951);
    assert((4416027582700103204int * 4416027582700103204int) % 13835058055275898369int == 13040728371168204418int);
}

proof fn lemma_block_root_60()
    ensures
        (block_root(60) * block_root(60)) % q() == level_w(7, 60) % q(),
{
    reveal(zeta_spec);
    assert(ZETAS@[94] == -1748976110565841208i128);
    assert(zeta_spec(94) == 12086081944710057161);
    assert((12086081944710057161int * 1271475462236046151int) % 13835058055275898369int == 8486410277728092823int);
    assert(tz(94) == 8486410277728092823);
    assert(block_root(60) == 4381941490820881351);
    assert(level_w(7, 60) == tz(94));
    assert((4381941490820881351int * 4381941490820881351int) % 13835058055275898369int == 8486410277728092823int);
}

proof fn lemma_block_root_61()
    ensures
        (block_root(61) * block_root(61)) % q() == level_w(7, 61) % q(),
{
    reveal(zeta_spec);
    assert(ZETAS@[94] == -1748976110565841208i128);
    assert(zeta_spec(94) == 12086081944710057161);
    assert((12086081944710057161int * 1271475462236046151int) % 13835058055275898369int == 8486410277728092823int);
    assert(tz(94) == 8486410277728092823);
    assert(block_root(61) == 9909835143685317958);
    assert(level_w(7, 61) == -tz(94));
    lemma_neg_mod(8486410277728092823);
    assert((9909835143685317958int * 9909835143685317958int) % 13835058055275898369int == 5348647777547805546int);
}

proof fn lemma_block_root_62()
    ensures
        (block_root(62) * block_root(62)) % q() == level_w(7, 62) % q(),
{
    reveal(zeta_spec);
    assert(ZETAS@[95] == 1931908146623244118i128);
    assert(zeta_spec(95) == 1931908146623244118);
    assert((1931908146623244118int * 1271475462236046151int) % 13835058055275898369int == 7836652370687295126int);
    assert(tz(95) == 7836652370687295126);
    assert(block_root(62) == 3785949432092938259);
    assert(level_w(7, 62) == tz(95));
    assert((3785949432092938259int * 3785949432092938259int) % 13835058055275898369int == 7836652370687295126int);
}

proof fn lemma_block_root_63()
    ensures
        (block_root(63) * block_root(63)) % q() == level_w(7, 63) % q(),
{
    reveal(zeta_spec);
    assert(ZETAS@[95] == 1931908146623244118i128);
    assert(zeta_spec(95) == 1931908146623244118);
    assert((1931908146623244118int * 1271475462236046151int) % 13835058055275898369int == 7836652370687295126int);
    assert(tz(95) == 7836652370687295126);
    assert(block_root(63) == 7066267244997628915);
    assert(level_w(7, 63) == -tz(95));
    lemma_neg_mod(7836652370687295126);
    assert((7066267244997628915int * 7066267244997628915int) % 13835058055275898369int == 5998405684588603243int);
}

proof fn lemma_block_root_64()
    ensures
        (block_root(64) * block_root(64)) % q() == level_w(7, 64) % q(),
{
    reveal(zeta_spec);
    assert(ZETAS@[96] == 101008600497379161i128);
    assert(zeta_spec(96) == 101008600497379161);
    assert((101008600497379161int * 1271475462236046151int) % 13835058055275898369int == 12735352064277296731int);
    assert(tz(96) == 12735352064277296731);
    assert(block_root(64) == 9760329345779921499);
    assert(level_w(7, 64) == tz(96));
    assert((9760329345779921499int * 9760329345779921499int) % 13835058055275898369int == 12735352064277296731int);
}

proof fn lemma_block_root_65()
    ensures
        (block_root(65) * block_root(65)) % q() == level_w(7, 65) % q(),
{
    reveal(zeta_spec);
    assert(ZETAS@[96] == 101008600497379161i128);
    assert(zeta_spec(96) == 101008600497379161);
    assert((101008600497379161int * 1271475462236046151int) % 13835058055275898369int == 12735352064277296731int);
    assert(tz(96) == 12735352064277296731);
    assert(block_root(65) == 13688193010417146167);
    assert(level_w(7, 65) == -tz(96));
    lemma_neg_mod(12735352064277296731);
    assert((13688193010417146167int * 13688193010417146167int) % 13835058055275898369int == 1099705990998601638int);
}

proof fn lemma_block_root_66()
    ensures
        (block_root(66) * block_root(66)) % q() == level_w(7, 66) % q(),
{
    reveal(zeta_spec);
    assert(ZETAS@[97] == 6678619682012113901i128);
    assert(zeta_spec(97) == 6678619682012113901);
    assert((6678619682012113901int * 1271475462236046151int) % 13835058055275898369int == 5431495734014839124int);
    assert(tz(97) == 5431495734014839124);
    assert(block_root(66) == 9135634457387714036);
    assert(level_w(7, 66) == tz(97));
    assert((9135634457387714036int * 9135634457387714036int) % 13835058055275898369int == 5431495734014839124int);
}

proof fn lemma_block_root_67()
    ensures
        (block_root(67) * block_root(67)) % q() == level_w(7, 67) % q(),
{
    reveal(zeta_spec);
    assert(ZETAS@[97] == 6678619682012113901i128);
    assert(zeta_spec(97) == 6678619682012113901);
    assert((6678619682012113901int * 1271475462236046151int) % 13835058055275898369int == 5431495734014839124int);
    assert(tz(97) == 5431495734014839124);
    assert(block_root(67) == 10451751983444024031);
    assert(level_w(7, 67) == -tz(97));
    lemma_neg_mod(5431495734014839124);
    assert((10451751983444024031int * 10451751983444024031int) % 13835058055275898369int == 8403562321261059245int);
}

proof fn lemma_block_root_68()
    ensures
        (block_root(68) * block_root(68)) % q() == level_w(7, 68) % q(),
{
    reveal(zeta_spec);
    assert(ZETAS@[98] == 6864728106536110716i128);
    assert(zeta_spec(98) == 6864728106536110716);
    assert((6864728106536110716int * 1271475462236046151int) % 13835058055275898369int == 198786362502121085int);
    assert(tz(98) == 198786362502121085);
    assert(block_root(68) == 6769547380390449087);
    assert(level_w(7, 68) == tz(98));
    assert((6769547380390449087int * 6769547380390449087int) % 13835058055275898369int == 198786362502121085int);
}

proof fn lemma_block_root_69()
    ensures
        (block_root(69) * block_root(69)) % q() == level_w(7, 69) % q(),
{
    reveal(zeta_spec);
    assert(ZETAS@[98] == 6864728106536110716i128);
    assert(zeta_spec(98) == 6864728106536110716);
    assert((6864728106536110716int * 1271475462236046151int) % 13835058055275898369int == 198786362502121085int);
    assert(tz(98) == 198786362502121085);
    assert(block_root(69) == 8220774125030178729);
    assert(level_w(7, 69) == -tz(98));
    lemma_neg_mod(198786362502121085);
    assert((8220774125030178729int * 8220774125030178729int) % 13835058055275898369int == 13636271692773777284int);
}

proof fn lemma_block_root_70()
    ensures
        (block_root(70) * block_root(70)) % q() == level_w(7, 70) % q(),
{
    reveal(zeta_spec);
    assert(ZETAS@[99] == -4854416514682753834i128);
    assert(zeta_spec(99) == 8980641540593144535);
    assert((8980641540593144535int * 1271475462236046151int) % 13835058055275898369int == 8045577100442454240int);
    assert(tz(99) == 8045577100442454240);
    assert(block_root(70) == 2005037941407484254);
    assert(level_w(7, 70) == tz(99));
    assert((2005037941407484254int * 2005037941407484254int) % 13835058055275898369int == 8045577100442454240int);
}

proof fn lemma_block_root_71()
    ensures
        (block_root(71) * block_root(71)) % q() == level_w(7, 71) % q(),
{
    reveal(zeta_spec);
    assert(ZETAS@[99] == -4854416514682753834i128);
    assert(zeta_spec(99) == 8980641540593144535);
    assert((8980641540593144535int * 1271475462236046151int) % 13835058055275898369int == 8045577100442454240int);
    assert(tz(99) == 8045577100442454240);
    assert(block_root(71) == 8750232708107181435);
    assert(level_w(7, 71) == -tz(99));
    lemma_neg_mod(8045577100442454240);
    assert((8750232708107181435int * 8750232708107181435int) % 13835058055275898369int == 5789480954833444129int);
}

proof fn lemma_block_root_72()
    ensures
        (block_root(72) * block_root(72)) % q() == level_w(7, 72) % q(),
{
    reveal(zeta_spec);
    assert(ZETAS@[100] == 2263811077158641856i128);
    assert(zeta_spec(100) == 2263811077158641856);
    assert((2263811077158641856int * 1271475462236046151int) % 13835058055275898369int == 672247913938338366int);
    assert(tz(100) == 672247913938338366);
    assert(block_root(72) == 11999271921751961886);
    assert(level_w(7, 72) == tz(100));
    assert((11999271921751961886int * 11999271921751961886int) % 13835058055275898369int == 672247913938338366int);
}

proof fn lemma_block_root_73()
    ensures
        (block_root(73) * block_root(73)) % q() == level_w(7, 73) % q(),
{
    reveal(zeta_spec);
    assert(ZETAS@[100] == 2263811077158641856i128);
    assert(zeta_spec(100) == 2263811077158641856);
    assert((2263811077158641856int * 1271475462236046151int) % 13835058055275898369int == 672247913938338366int);
    assert(tz(100) == 672247913938338366);
    assert(block_root(73) == 3526353418173883504);
    assert(level_w(7, 73) == -tz(100));
    lemma_neg_mod(672247913938338366);
    assert((3526353418173883504int * 3526353418173883504int) % 13835058055275898369int == 13162810141337560003int);
}

proof fn lemma_block_root_74()
    ensures
        (block_root(74) * block_root(74)) % q() == level_w(7, 74) % q(),
{
    reveal(zeta_spec);
    assert(ZETAS@[101] == -3831832212124189303i128);
    assert(zeta_spec(101) == 10003225843151709066);
    assert((10003225843151709066int * 1271475462236046151int) % 13835058055275898369int == 10803767452273056424int);
    assert(tz(101) == 10803767452273056424);
    assert(block_root(74) == 644609568424049603);
    assert(level_w(7, 74) == tz(101));
    assert((644609568424049603int * 644609568424049603int) % 13835058055275898369int == 10803767452273056424int);
}

proof fn lemma_block_root_75()
    ensures
        (block_root(75) * block_root(75)) % q() == level_w(7, 75) % q(),
{
    reveal(zeta_spec);
    assert(ZETAS@[101] == -3831832212124189303i128);
    assert(zeta_spec(101) == 10003225843151709066);
    assert((10003225843151709066int * 1271475462236046151int) % 13835058055275898369int == 10803767452273056424int);
    assert(tz(101) == 10803767452273056424);
    assert(block_root(75) == 9044113611131073073);
    assert(level_w(7, 75) == -tz(101));
    lemma_neg_mod(10803767452273056424);
    assert((9044113611131073073int * 9044113611131073073int) % 13835058055275898369int == 3031290603002841945int);
}

proof fn lemma_block_root_76()
    ensures
        (block_root(76) * block_root(76)) % q() == level_w(7, 76) % q(),
{
    reveal(zeta_spec);
    assert(ZETAS@[102] == 2577497029180678273i128);
    assert(zeta_spec(102) == 2577497029180678273);
    assert((2577497029180678273int * 1271475462236046151int) % 13835058055275898369int == 9947147881831630791int);
    assert(tz(102) == 9947147881831630791);
    assert(block_root(76) == 10377153483483375752);
    assert(level_w(7, 76) == tz(102));
    assert((10377153483483375752int * 10377153483483375752int) % 13835058055275898369int == 9947147881831630791int);
}

proof fn lemma_block_root_77()
    ensures
        (block_root(77) * block_root(77)) % q() == level_w(7, 77) % q(),
{
    reveal(zeta_spec);
    assert(ZETAS@[102] == 2577497029180678273i128);
    assert(zeta_spec(102) == 2577497029180678273);
    assert((2577497029180678273int * 1271475462236046151int) % 13835058055275898369int == 9947147881831630791int);
    assert(tz(102) == 9947147881831630791);
    assert(block_root(77) == 8475934530778911396);
    assert(level_w(7, 77) == -tz(102));
    lemma_neg_mod(9947147881831630791);
    assert((8475934530778911396int * 8475934530778911396int) % 13835058055275898369int == 3887910173444267578int);
}

proof fn lemma_block_root_78()
    ensures
        (block_root(78) * block_root(78)) % q() == level_w(7, 78) % q(),
{
    reveal(zeta_spec);
    assert(ZETAS@[103] == -3316505856631513396i128);
    assert(zeta_spec(103) == 10518552198644384973);
    assert((10518552198644384973int * 1271475462236046151int) % 13835058055275898369int == 3123897306615576775int);
    assert(tz(103) == 3123897306615576775);
    assert(block_root(78) == 793826096053612405);
    assert(level_w(7, 78) == tz(103));
    assert((793826096053612405int * 793826096053612405int) % 13835058055275898369int == 3123897306615576775int);
}

proof fn lemma_block_root_79()
    ensures
        (block_root(79) * block_root(79)) % q() == level_w(7, 79) % q(),
{
    reveal(zeta_spec);
    assert(ZETAS@[103] == -3316505856631513396i128);
    assert(zeta_spec(103) == 10518552198644384973);
    assert((10518552198644384973int * 1271475462236046151int) % 13835058055275898369int == 3123897306615576775int);
    assert(tz(103) == 3123897306615576775);
    assert(block_root(79) == 3924742013313778994);
    assert(level_w(7, 79) == -tz(103));
    lemma_neg_mod(3123897306615576775);
    assert((3924742013313778994int * 3924742013313778994int) % 13835058055275898369int == 10711160748660321594int);
}

proof fn lemma_block_root_80()
    ensures
        (block_root(80) * block_root(80)) % q() == level_w(7, 80) % q(),
{
    reveal(zeta_spec);
    assert(ZETAS@[104] == 141308948101872457i128);
    assert(zeta_spec(104) == 141308948101872457);
    assert((141308948101872457int * 1271475462236046151int) % 13835058055275898369int == 7764697783612800105int);
    assert(tz(104) == 7764697783612800105);
    assert(block_root(80) == 13393421477722686406);
    assert(level_w(7, 80) == tz(104));
    assert((13393421477722686406int * 13393421477722686406int) % 13835058055275898369int == 7764697783612800105int);
}

proof fn lemma_block_root_81()
    ensures
        (block_root(81) * block_root(81)) % q() == level_w(7, 81) % q(),
{
    reveal(zeta_spec);
    assert(ZETAS@[104] == 141308948101872457i128);
    assert(zeta_spec(104) == 141308948101872457);
    assert((141308948101872457int * 1271475462236046151int) % 13835058055275898369int == 7764697783612800105int);
    assert(tz(104) == 7764697783612800105);
    assert(block_root(81) == 12448257809982270834);
    assert(level_w(7, 81) == -tz(104));
    lemma_neg_mod(7764697783612800105);
    assert((12448257809982270834int * 12448257809982270834int) % 13835058055275898369int == 6070360271663098264int);
}

proof fn lemma_block_root_82()
    ensures
        (block_root(82) * block_root(82)) % q() == level_w(7, 82) % q(),
{
    reveal(zeta_spec);
    assert(ZETAS@[105] == 4037194506457022523i128);
    assert(zeta_spec(105) == 4037194506457022523);
    assert((4037194506457022523int * 1271475462236046151int) % 13835058055275898369int == 5380399041153979261int);
    assert(tz(105) == 5380399041153979261);
    assert(block_root(82) == 12200365485977242038);
    assert(level_w(7, 82) == tz(105));
    assert((12200365485977242038int * 12200365485977242038int) % 13835058055275898369int == 5380399041153979261int);
}

proof fn lemma_block_root_83()
    ensures
        (block_root(83) * block_root(83)) % q() == level_w(7, 83) % q(),
{
    reveal(zeta_spec);
    assert(ZETAS@[105] == 4037194506457022523i128);
    assert(zeta_spec(105) == 4037194506457022523);
    assert((4037194506457022523int * 1271475462236046151int) % 13835058055275898369int == 5380399041153979261int);
    assert(tz(105) == 5380399041153979261);
    assert(block_root(83) == 6767236248821371439);
    assert(level_w(7, 83) == -tz(105));
    lemma_neg_mod(5380399041153979261);
    assert((6767236248821371439int * 6767236248821371439int) % 13835058055275898369int == 8454659014121919108int);
}

proof fn lemma_block_root_84()
    ensures
        (block_root(84) * block_root(84)) % q() == level_w(7, 84) % q(),
{
    reveal(zeta_spec);
    assert(ZETAS@[106] == 5142836145630396386i128);
    assert(zeta_spec(106) == 5142836145630396386);
    assert((5142836145630396386int * 1271475462236046151int) % 13835058055275898369int == 8704676177894429352int);
    assert(tz(106) == 8704676177894429352);
    assert(block_root(84) == 12876643701712318490);
    assert(level_w(7, 84) == tz(106));
    assert((12876643701712318490int * 12876643701712318490int) % 13835058055275898369int == 8704676177894429352int);
}

proof fn lemma_block_root_85()
    ensures
        (block_root(85) * block_root(85)) % q() == level_w(7, 85) % q(),
{
    reveal(zeta_spec);
    assert(ZETAS@[106] == 5142836145630396386i128);
    assert(zeta_spec(106) == 5142836145630396386);
    assert((5142836145630396386int * 1271475462236046151int) % 13835058055275898369int == 8704676177894429352int);
    assert(tz(106) == 8704676177894429352);
    assert(block_root(85) == 1312810023228009723);
    assert(level_w(7, 85) == -tz(106));
    lemma_neg_mod(8704676177894429352);
    assert((1312810023228009723int * 1312810023228009723int) % 13835058055275898369int == 5130381877381469017int);
}

proof fn lemma_block_root_86()
    ensures
        (block_root(86) * block_root(86)) % q() == level_w(7, 86) % q(),
{
    reveal(zeta_spec);
    assert(ZETAS@[107] == -1159634373834138383i128);
    assert(zeta_spec(107) == 12675423681441759986);
    assert((12675423681441759986int * 1271475462236046151int) % 13835058055275898369int == 2571945956162062608int);
    assert(tz(107) == 2571945956162062608);
    assert(block_root(86) == 5385277100290462602);
    assert(level_w(7, 86) == tz(107));
    assert((5385277100290462602int * 5385277100290462602int) % 13835058055275898369int == 2571945956162062608int);
}

proof fn lemma_block_root_87()
    ensures
        (block_root(87) * block_root(87)) % q() == level_w(7, 87) % q(),
{
    reveal(zeta_spec);
    assert(ZETAS@[107] == -1159634373834138383i128);
    assert(zeta_spec(107) == 12675423681441759986);
    assert((12675423681441759986int * 1271475462236046151int) % 13835058055275898369int == 2571945956162062608int);
    assert(tz(107) == 2571945956162062608);
    assert(block_root(87) == 13108204566249898758);
    assert(level_w(7, 87) == -tz(107));
    lemma_neg_mod(2571945956162062608);
    assert((13108204566249898758int * 13108204566249898758int) % 13835058055275898369int == 11263112099113835761int);
}

proof fn lemma_block_root_88()
    ensures
        (block_root(88) * block_root(88)) % q() == level_w(7, 88) % q(),
{
    reveal(zeta_spec);
    assert(ZETAS@[108] == 1103814451303893121i128);
    assert(zeta_spec(108) == 1103814451303893121);
    assert((1103814451303893121int * 1271475462236046151int) % 13835058055275898369int == 12031492115505967771int);
    assert(tz(108) == 12031492115505967771);
    assert(block_root(88) == 13352761500337291734);
    assert(level_w(7, 88) == tz(108));
    assert((13352761500337291734int * 13352761500337291734int) % 13835058055275898369int == 12031492115505967771int);
}

proof fn lemma_block_root_89()
    ensures
        (block_root(89) * block_root(89)) % q() == level_w(7, 89) % q(),
{
    reveal(zeta_spec);
    assert(ZETAS@[108] == 1103814451303893121i128);
    assert(zeta_spec(108) == 1103814451303893121);
    assert((1103814451303893121int * 1271475462236046151int) % 13835058055275898369int == 12031492115505967771int);
    assert(tz(108) == 12031492115505967771);
    assert(block_root(89) == 11583669704259247835);
    assert(level_w(7, 89) == -tz(108));
    lemma_neg_mod(12031492115505967771);
    assert((11583669704259247835int * 11583669704259247835int) % 13835058055275898369int == 1803565939769930598int);
}

proof fn lemma_block_root_90()
    ensures
        (block_root(90) * block_root(90)) % q() == level_w(7, 90) % q(),
{
    reveal(zeta_spec);
    assert(ZETAS@[109] == -5107084311639924838i128);
    assert(zeta_spec(109) == 8727973743635973531);
    assert((8727973743635973531int * 1271475462236046151int) % 13835058055275898369int == 5841250740618567736int);
    assert(tz(109) == 5841250740618567736);
    assert(block_root(90) == 12939010169847454881);
    assert(level_w(7, 90) == tz(109));
    assert((12939010169847454881int * 12939010169847454881int) % 13835058055275898369int == 5841250740618567736int);
}

proof fn lemma_block_root_91()
    ensures
        (block_root(91) * block_root(91)) % q() == level_w(7, 91) % q(),
{
    reveal(zeta_spec);
    assert(ZETAS@[109] == -5107084311639924838i128);
    assert(zeta_spec(109) == 8727973743635973531);
    assert((8727973743635973531int * 1271475462236046151int) % 13835058055275898369int == 5841250740618567736int);
    assert(tz(109) == 5841250740618567736);
    assert(block_root(91) == 8093655591934138276);
    assert(level_w(7, 91) == -tz(109));
    lemma_neg_mod(5841250740618567736);
    assert((8093655591934138276int * 8093655591934138276int) % 13835058055275898369int == 7993807314657330633int);
}

proof fn lemma_block_root_92()
    ensures
        (block_root(92) * block_root(92)) % q() == level_w(7, 92) % q(),
{
    reveal(zeta_spec);
    assert(ZETAS@[110] == 2580699593472304997i128);
    assert(zeta_spec(110) == 2580699593472304997);
    assert((2580699593472304997int * 1271475462236046151int) % 13835058055275898369int == 8285567775675408363int);
    assert(tz(110) == 8285567775675408363);
    assert(block_root(92) == 10792826662909058792);
    assert(level_w(7, 92) == tz(110));
    assert((10792826662909058792int * 10792826662909058792int) % 13835058055275898369int == 8285567775675408363int);
}

proof fn lemma_block_root_93()
    ensures
        (block_root(93) * block_root(93)) % q() == level_w(7, 93) % q(),
{
    reveal(zeta_spec);
    assert(ZETAS@[110] == 2580699593472304997i128);
    assert(zeta_spec(110) == 2580699593472304997);
    assert((2580699593472304997int * 1271475462236046151int) % 13835058055275898369int == 8285567775675408363int);
    assert(tz(110) == 8285567775675408363);
    assert(block_root(93) == 3115741859662251966);
    assert(level_w(7, 93) == -tz(110));
    lemma_neg_mod(8285567775675408363);
    assert((3115741859662251966int * 3115741859662251966int) % 13835058055275898369int == 5549490279600490006int);
}

proof fn lemma_block_root_94()
    ensures
        (block_root(94) * block_root(94)) % q() == level_w(7, 94) % q(),
{
    reveal(zeta_spec);
    assert(ZETAS@[111] == -4201594893426059755i128);
    assert(zeta_spec(111) == 9633463161849838614);
    assert((9633463161849838614int * 1271475462236046151int) % 13835058055275898369int == 1432266409540415560int);
    assert(tz(111) == 1432266409540415560);
    assert(block_root(94) == 3890079922067377393);
    assert(level_w(7, 94) == tz(111));
    assert((3890079922067377393int * 3890079922067377393int) % 13835058055275898369int == 1432266409540415560int);
}

proof fn lemma_block_root_95()
    ensures
        (block_root(95) * block_root(95)) % q() == level_w(7, 95) % q(),
{
    reveal(zeta_spec);
    assert(ZETAS@[111] == -4201594893426059755i128);
    assert(zeta_spec(111) == 9633463161849838614);
    assert((9633463161849838614int * 1271475462236046151int) % 13835058055275898369int == 1432266409540415560int);
    assert(tz(111) == 1432266409540415560);
    assert(block_root(95) == 655966453204133391);
    assert(level_w(7, 95) == -tz(111));
    lemma_neg_mod(1432266409540415560);
    assert((655966453204133391int * 655966453204133391int) % 13835058055275898369int == 12402791645735482809int);
}

proof fn lemma_block_root_96()
    ensures
        (block_root(96) * block_root(96)) % q() == level_w(7, 96) % q(),
{
    reveal(zeta_spec);
    assert(ZETAS@[112] == 4176366008162680626i128);
    assert(zeta_spec(112) == 4176366008162680626);
    assert((4176366008162680626int * 1271475462236046151int) % 13835058055275898369int == 11140438206971205209int);
    assert(tz(112) == 11140438206971205209);
    assert(block_root(96) == 8384277897814807260);
    assert(level_w(7, 96) == tz(112));
    assert((8384277897814807260int * 8384277897814807260int) % 13835058055275898369int == 11140438206971205209int);
}

proof fn lemma_block_root_97()
    ensures
        (block_root(97) * block_root(97)) % q() == level_w(7, 97) % q(),
{
    reveal(zeta_spec);
    assert(ZETAS@[112] == 4176366008162680626i128);
    assert(zeta_spec(112) == 4176366008162680626);
    assert((4176366008162680626int * 1271475462236046151int) % 13835058055275898369int == 11140438206971205209int);
    assert(tz(112) == 11140438206971205209);
    assert(block_root(97) == 10156083046992733286);
    assert(level_w(7, 97) == -tz(112));
    lemma_neg_mod(11140438206971205209);
    assert((10156083046992733286int * 10156083046992733286int) % 13835058055275898369int == 2694619848304693160int);
}

proof fn lemma_block_root_98()
    ensures
        (block_root(98) * block_root(98)) % q() == level_w(7, 98) % q(),
{
    reveal(zeta_spec);
    assert(ZETAS@[113] == 2749976035880187188i128);
    assert(zeta_spec(113) == 2749976035880187188);
    assert((2749976035880187188int * 1271475462236046151int) % 13835058055275898369int == 6431029005922750902int);
    assert(tz(113) == 6431029005922750902);
    assert(block_root(98) == 10396497965923390285);
    assert(level_w(7, 98) == tz(113));
    assert((10396497965923390285int * 10396497965923390285int) % 13835058055275898369int == 6431029005922750902int);
}

proof fn lemma_block_root_99()
    ensures
        (block_root(99) * block_root(99)) % q() == level_w(7, 99) % q(),
{
    reveal(zeta_spec);
    assert(ZETAS@[113] == 2749976035880187188i128);
    assert(zeta_spec(113) == 2749976035880187188);
    assert((2749976035880187188int * 1271475462236046151int) % 13835058055275898369int == 6431029005922750902int);
    assert(tz(113) == 6431029005922750902);
    assert(block_root(99) == 9995373287829139337);
    assert(level_w(7, 99) == -tz(113));
    lemma_neg_mod(6431029005922750902);
    assert((9995373287829139337int * 9995373287829139337int) % 13835058055275898369int == 7404029049353147467int);
}

proof fn lemma_block_root_100()
    ensures
        (block_root(100) * block_root(100)) % q() == level_w(7, 100) % q(),
{
    reveal(zeta_spec);
    assert(ZETAS@[114] == -3221175483079064863i128);
    assert(zeta_spec(114) == 10613882572196833506);
    assert((10613882572196833506int * 1271475462236046151int) % 13835058055275898369int == 3031688336729982805int);
    assert(tz(114) == 3031688336729982805);
    assert(block_root(100) == 2965289234349536881);
    assert(level_w(7, 100) == tz(114));
    assert((2965289234349536881int * 2965289234349536881int) % 13835058055275898369int == 3031688336729982805int);
}

proof fn lemma_block_root_101()
    ensures
        (block_root(101) * block_root(101)) % q() == level_w(7, 101) % q(),
{
    reveal(zeta_spec);
    assert(ZETAS@[114] == -3221175483079064863i128);
    assert(zeta_spec(114) == 10613882572196833506);
    assert((10613882572196833506int * 1271475462236046151int) % 13835058055275898369int == 3031688336729982805int);
    assert(tz(114) == 3031688336729982805);
    assert(block_root(101) == 1941861414753448549);
    assert(level_w(7, 101) == -tz(114));
    lemma_neg_mod(3031688336729982805);
    assert((1941861414753448549int * 1941861414753448549int) % 13835058055275898369int == 10803369718545915564int);
}

proof fn lemma_block_root_102()
    ensures
        (block_root(102) * block_root(102)) % q() == level_w(7, 102) % q(),
{
    reveal(zeta_spec);
    assert(ZETAS@[115] == 3864261972939933101i128);
    assert(zeta_spec(115) == 3864261972939933101);
    assert((3864261972939933101int * 1271475462236046151int) % 13835058055275898369int == 2214058830705328540int);
    assert(tz(115) == 2214058830705328540);
    assert(block_root(102) == 3675050133973302737);
    assert(level_w(7, 102) == tz(115));
    assert((3675050133973302737int * 3675050133973302737int) % 13835058055275898369int == 2214058830705328540int);
}

proof fn lemma_block_root_103()
    ensures
        (block_root(103) * block_root(103)) % q() == level_w(7, 103) % q(),
{
    reveal(zeta_spec);
    assert(ZETAS@[115] == 3864261972939933101i128);
    assert(zeta_spec(115) == 3864261972939933101);
    assert((3864261972939933101int * 1271475462236046151int) % 13835058055275898369int == 2214058830705328540int);
    assert(tz(115) == 2214058830705328540);
    assert(block_root(103) == 6897611235258049236);
    assert(level_w(7, 103) == -tz(115));
    lemma_neg_mod(2214058830705328540);
    assert((6897611235258049236int * 6897611235258049236int) % 13835058055275898369int == 11620999224570569829int);
}

proof fn lemma_block_root_104()
    ensures
        (block_root(104) * block_root(104)) % q() == level_w(7, 104) % q(),
{
    reveal(zeta_spec);
    assert(ZETAS@[116] == 4915914795301596551i128);
    assert(zeta_spec(116) == 4915914795301596551);
    assert((4915914795301596551int * 1271475462236046151int) % 13835058055275898369int == 5644449904957285482int);
    assert(tz(116) == 5644449904957285482);
    assert(block_root(104) == 5034488508718590452);
    assert(level_w(7, 104) == tz(116));
    assert((5034488508718590452int * 5034488508718590452int) % 13835058055275898369int == 5644449904957285482int);
}

proof fn lemma_block_root_105()
    ensures
        (block_root(105) * block_root(105)) % q() == level_w(7, 105) % q(),
{
    reveal(zeta_spec);
    assert(ZETAS@[116] == 4915914795301596551i128);
    assert(zeta_spec(116) == 4915914795301596551);
    assert((4915914795301596551int * 1271475462236046151int) % 13835058055275898369int == 5644449904957285482int);
    assert(tz(116) == 5644449904957285482);
    assert(block_root(105) == 12055337574266861597);
    assert(level_w(7, 105) == -tz(116));
    lemma_neg_mod(5644449904957285482);
    assert((12055337574266861597int * 12055337574266861597int) % 13835058055275898369int == 8190608150318612887int);
}

proof fn lemma_block_root_106()
    ensures
        (block_root(106) * block_root(106)) % q() == level_w(7, 106) % q(),
{
    reveal(zeta_spec);
    assert(ZETAS@[117] == 4691404023415064847i128);
    assert(zeta_spec(117) == 4691404023415064847);
    assert((4691404023415064847int * 1271475462236046151int) % 13835058055275898369int == 6490320754379090799int);
    assert(tz(117) == 6490320754379090799);
    assert(block_root(106) == 7406224715208479700);
    assert(level_w(7, 106) == tz(117));
    assert((7406224715208479700int * 7406224715208479700int) % 13835058055275898369int == 6490320754379090799int);
}

proof fn lemma_block_root_107()
    ensures
        (block_root(107) * block_root(107)) % q() == level_w(7, 107) % q(),
{
    reveal(zeta_spec);
    assert(ZETAS@[117] == 4691404023415064847i128);
    assert(zeta_spec(117) == 4691404023415064847);
    assert((4691404023415064847int * 1271475462236046151int) % 13835058055275898369int == 6490320754379090799int);
    assert(tz(117) == 6490320754379090799);
    assert(block_root(107) == 1713876957436822117);
    assert(level_w(7, 107) == -tz(117));
    lemma_neg_mod(6490320754379090799);
    assert((1713876957436822117int * 1713876957436822117int) % 13835058055275898369int == 7344737300896807570int);
}

proof fn lemma_block_root_108()
    ensures
        (block_root(108) * block_root(108)) % q() == level_w(7, 108) % q(),
{
    reveal(zeta_spec);
    assert(ZETAS@[118] == -2009294716216636780i128);
    assert(zeta_spec(118) == 11825763339059261589);
    assert((11825763339059261589int * 1271475462236046151int) % 13835058055275898369int == 6308125083393112856int);
    assert(tz(118) == 6308125083393112856);
    assert(block_root(108) == 7959515703388380590);
    assert(level_w(7, 108) == tz(118));
    assert((7959515703388380590int * 7959515703388380590int) % 13835058055275898369int == 6308125083393112856int);
}

proof fn lemma_block_root_109()
    ensures
        (block_root(109) * block_root(109)) % q() == level_w(7, 109) % q(),
{
    reveal(zeta_spec);
    assert(ZETAS@[118] == -2009294716216636780i128);
    assert(zeta_spec(118) == 11825763339059261589);
    assert((11825763339059261589int * 1271475462236046151int) % 13835058055275898369int == 6308125083393112856int);
    assert(tz(118) == 6308125083393112856);
    assert(block_root(109) == 9339028971072725545);
    assert(level_w(7, 109) == -tz(118));
    lemma_neg_mod(6308125083393112856);
    assert((9339028971072725545int * 9339028971072725545int) % 13835058055275898369int == 7526932971882785513int);
}

proof fn lemma_block_root_110()
    ensures
        (block_root(110) * block_root(110)) % q() == level_w(7, 110) % q(),
{
    reveal(zeta_spec);
    assert(ZETAS@[119] == -6666406931716436834i128);
    assert(zeta_spec(119) == 7168651123559461535);
    assert((7168651123559461535int * 1271475462236046151int) % 13835058055275898369int == 10647571454910028327int);
    assert(tz(119) == 10647571454910028327);
    assert(block_root(110) == 11685478392084529418);
    assert(level_w(7, 110) == tz(119));
    assert((11685478392084529418int * 11685478392084529418int) % 13835058055275898369int == 10647571454910028327int);
}

proof fn lemma_block_root_111()
    ensures
        (block_root(111) * block_root(111)) % q() == level_w(7, 111) % q(),
{
    reveal(zeta_spec);
    assert(ZETAS@[119] == -6666406931716436834i128);
    assert(zeta_spec(119) == 7168651123559461535);
    assert((7168651123559461535int * 1271475462236046151int) % 13835058055275898369int == 10647571454910028327int);
    assert(tz(119) == 10647571454910028327);
    assert(block_root(111) == 104718153027235043);
    assert(level_w(7, 111) == -tz(119));
    lemma_neg_mod(10647571454910028327);
    assert((104718153027235043int * 104718153027235043int) % 13835058055275898369int == 3187486600365870042int);
}

proof fn lemma_block_root_112()
    ensures
        (block_root(112) * block_root(112)) % q() == level_w(7, 112) % q(),
{
    reveal(zeta_spec);
    assert(ZETAS@[120] == 75700364447871879i128);
    assert(zeta_spec(120) == 75700364447871879);
    assert((75700364447871879int * 1271475462236046151int) % 13835058055275898369int == 7694995203203355784int);
    assert(tz(120) == 7694995203203355784);
    assert(block_root(112) == 13351500980847959027);
    assert(level_w(7, 112) == tz(120));
    assert((13351500980847959027int * 13351500980847959027int) % 13835058055275898369int == 7694995203203355784int);
}

proof fn lemma_block_root_113()
    ensures
        (block_root(113) * block_root(113)) % q() == level_w(7, 113) % q(),
{
    reveal(zeta_spec);
    assert(ZETAS@[120] == 75700364447871879i128);
    assert(zeta_spec(120) == 75700364447871879);
    assert((75700364447871879int * 1271475462236046151int) % 13835058055275898369int == 7694995203203355784int);
    assert(tz(120) == 7694995203203355784);
    assert(block_root(113) == 8860679966748261825);
    assert(level_w(7, 113) == -tz(120));
    lemma_neg_mod(7694995203203355784);
    assert((8860679966748261825int * 8860679966748261825int) % 13835058055275898369int == 6140062852072542585int);
}

proof fn lemma_block_root_114()
    ensures
        (block_root(114) * block_root(114)) % q() == level_w(7, 114) % q(),
{
    reveal(zeta_spec);
    assert(ZETAS@[121] == -6382679092994900854i128);
    assert(zeta_spec(121) == 7452378962280997515);
    assert((7452378962280997515int * 1271475462236046151int) % 13835058055275898369int == 8384354981491494862int);
    assert(tz(121) == 8384354981491494862);
    assert(block_root(114) == 7301204975277264027);
    assert(level_w(7, 114) == tz(121));
    assert((7301204975277264027int * 7301204975277264027int) % 13835058055275898369int == 8384354981491494862int);
}

proof fn lemma_block_root_115()
    ensures
        (block_root(115) * block_root(115)) % q() == level_w(7, 115) % q(),
{
    reveal(zeta_spec);
    assert(ZETAS@[121] == -6382679092994900854i128);
    assert(zeta_spec(121) == 7452378962280997515);
    assert((7452378962280997515int * 1271475462236046151int) % 13835058055275898369int == 8384354981491494862int);
    assert(tz(121) == 8384354981491494862);
    assert(block_root(115) == 8570884275468377900);
    assert(level_w(7, 115) == -tz(121));
    lemma_neg_mod(8384354981491494862);
    assert((8570884275468377900int * 8570884275468377900int) % 13835058055275898369int == 5450703073784403507int);
}

proof fn lemma_block_root_116()
    ensures
        (block_root(116) * block_root(116)) % q() == level_w(7, 116) % q(),
{
    reveal(zeta_spec);
    assert(ZETAS@[122] == -1821567887061005068i128);
    assert(zeta_spec(122) == 12013490168214893301);
    assert((12013490168214893301int * 1271475462236046151int) % 13835058055275898369int == 11917058471355635507int);
    assert(tz(122) == 11917058471355635507);
    assert(block_root(116) == 271685154886215304);
    assert(level_w(7, 116) == tz(122));
    assert((271685154886215304int * 271685154886215304int) % 13835058055275898369int == 11917058471355635507int);
}

proof fn lemma_block_root_117()
    ensures
        (block_root(117) * block_root(117)) % q() == level_w(7, 117) % q(),
{
    reveal(zeta_spec);
    assert(ZETAS@[122] == -1821567887061005068i128);
    assert(zeta_spec(122) == 12013490168214893301);
    assert((12013490168214893301int * 1271475462236046151int) % 13835058055275898369int == 11917058471355635507int);
    assert(tz(122) == 11917058471355635507);
    assert(block_root(117) == 7931708674600876044);
    assert(level_w(7, 117) == -tz(122));
    lemma_neg_mod(11917058471355635507);
    assert((7931708674600876044int * 7931708674600876044int) % 13835058055275898369int == 1917999583920262862int);
}

proof fn lemma_block_root_118()
    ensures
        (block_root(118) * block_root(118)) % q() == level_w(7, 118) % q(),
{
    reveal(zeta_spec);
    assert(ZETAS@[123] == 6856719230399980910i128);
    assert(zeta_spec(123) == 6856719230399980910);
    assert((6856719230399980910int * 1271475462236046151int) % 13835058055275898369int == 1044355820116945787int);
    assert(tz(123) == 1044355820116945787);
    assert(block_root(118) == 11296217705997956918);
    assert(level_w(7, 118) == tz(123));
    assert((11296217705997956918int * 11296217705997956918int) % 13835058055275898369int == 1044355820116945787int);
}

proof fn lemma_block_root_119()
    ensures
        (block_root(119) * block_root(119)) % q() == level_w(7, 119) % q(),
{
    reveal(zeta_spec);
    assert(ZETAS@[123] == 6856719230399980910i128);
    assert(zeta_spec(123) == 6856719230399980910);
    assert((6856719230399980910int * 1271475462236046151int) % 13835058055275898369int == 1044355820116945787int);
    assert(tz(123) == 1044355820116945787);
    assert(block_root(119) == 12788514097406766104);
    assert(level_w(7, 119) == -tz(123));
    lemma_neg_mod(1044355820116945787);
    assert((12788514097406766104int * 12788514097406766104int) % 13835058055275898369int == 12790702235158952582int);
}

proof fn lemma_block_root_120()
    ensures
        (block_root(120) * block_root(120)) % q() == level_w(7, 120) % q(),
{
    reveal(zeta_spec);
    assert(ZETAS@[124] == 1577653652171756991i128);
    assert(zeta_spec(124) == 1577653652171756991);
    assert((1577653652171756991int * 1271475462236046151int) % 13835058055275898369int == 3113565226666319704int);
    assert(tz(124) == 3113565226666319704);
    assert(block_root(120) == 5903130751089305702);
    assert(level_w(7, 120) == tz(124));
    assert((5903130751089305702int * 5903130751089305702int) % 13835058055275898369int == 3113565226666319704int);
}

proof fn lemma_block_root_121()
    ensures
        (block_root(121) * block_root(121)) % q() == level_w(7, 121) % q(),
{
    reveal(zeta_spec);
    assert(ZETAS@[124] == 1577653652171756991i128);
    assert(zeta_spec(124) == 1577653652171756991);
    assert((1577653652171756991int * 1271475462236046151int) % 13835058055275898369int == 3113565226666319704int);
    assert(tz(124) == 3113565226666319704);
    assert(block_root(121) == 13780473491716051368);
    assert(level_w(7, 121) == -tz(124));
    lemma_neg_mod(3113565226666319704);
    assert((13780473491716051368int * 13780473491716051368int) % 13835058055275898369int == 10721492828609578665int);
}

proof fn lemma_block_root_122()
    ensures
        (block_root(122) * block_root(122)) % q() == level_w(7, 122) % q(),
{
    reveal(zeta_spec);
    assert(ZETAS@[125] == 393060495186118832i128);
    assert(zeta_spec(125) == 393060495186118832);
    assert((393060495186118832int * 1271475462236046151int) % 13835058055275898369int == 3533896516780758548int);
    assert(tz(125) == 3533896516780758548);
    assert(block_root(122) == 7407014000413300167);
    assert(level_w(7, 122) == tz(125));
    assert((7407014000413300167int * 7407014000413300167int) % 13835058055275898369int == 3533896516780758548int);
}

proof fn lemma_block_root_123()
    ensures
        (block_root(123) * block_root(123)) % q() == level_w(7, 123) % q(),
{
    reveal(zeta_spec);
    assert(ZETAS@[125] == 393060495186118832i128);
    assert(zeta_spec(125) == 393060495186118832);
    assert((393060495186118832int * 1271475462236046151int) % 13835058055275898369int == 3533896516780758548int);
    assert(tz(125) == 3533896516780758548);
    assert(block_root(123) == 6125003572524097715);
    assert(level_w(7, 123) == -tz(125));
    lemma_neg_mod(3533896516780758548);
    assert((6125003572524097715int * 6125003572524097715int) % 13835058055275898369int == 10301161538495139821int);
}

proof fn lemma_block_root_124()
    ensures
        (block_root(124) * block_root(124)) % q() == level_w(7, 124) % q(),
{
    reveal(zeta_spec);
    assert(ZETAS@[126] == -701047631524101030i128);
    assert(zeta_spec(126) == 13134010423751797339);
    assert((13134010423751797339int * 1271475462236046151int) % 13835058055275898369int == 11037825313977023488int);
    assert(tz(126) == 11037825313977023488);
    assert(block_root(124) == 2363771713976005141);
    assert(level_w(7, 124) == tz(126));
    assert((2363771713976005141int * 2363771713976005141int) % 13835058055275898369int == 11037825313977023488int);
}

proof fn lemma_block_root_125()
    ensures
        (block_root(125) * block_root(125)) % q() == level_w(7, 125) % q(),
{
    reveal(zeta_spec);
    assert(ZETAS@[126] == -701047631524101030i128);
    assert(zeta_spec(126) == 13134010423751797339);
    assert((13134010423751797339int * 1271475462236046151int) % 13835058055275898369int == 11037825313977023488int);
    assert(tz(126) == 11037825313977023488);
    assert(block_root(125) == 12306892792326947584);
    assert(level_w(7, 125) == -tz(126));
    lemma_neg_mod(11037825313977023488);
    assert((12306892792326947584int * 12306892792326947584int) % 13835058055275898369int == 2797232741298874881int);
}

proof fn lemma_block_root_126()
    ensures
        (block_root(126) * block_root(126)) % q() == level_w(7, 126) % q(),
{
    reveal(zeta_spec);
    assert(ZETAS@[127] == -313778452114125462i128);
    assert(zeta_spec(127) == 13521279603161772907);
    assert((13521279603161772907int * 1271475462236046151int) % 13835058055275898369int == 5088512994226497905int);
    assert(tz(127) == 5088512994226497905);
    assert(block_root(126) == 6156968658994764555);
    assert(level_w(7, 126) == tz(127));
    assert((6156968658994764555int * 6156968658994764555int) % 13835058055275898369int == 5088512994226497905int);
}

proof fn lemma_block_root_127()
    ensures
        (block_root(127) * block_root(127)) % q() == level_w(7, 127) % q(),
{
    reveal(zeta_spec);
    assert(ZETAS@[127] == -313778452114125462i128);
    assert(zeta_spec(127) == 13521279603161772907);
    assert((13521279603161772907int * 1271475462236046151int) % 13835058055275898369int == 5088512994226497905int);
    assert(tz(127) == 5088512994226497905);
    assert(block_root(127) == 12343079370081563815);
    assert(level_w(7, 127) == -tz(127));
    lemma_neg_mod(5088512994226497905);
    assert((12343079370081563815int * 12343079370081563815int) % 13835058055275898369int == 8746545061049400464int);
}

/// The root of each last-level block squares to its modulus.
proof fn lemma_block_root(c: int)
    requires
        0 <= c < 128,
    ensures
        (block_root(c) * block_root(c)) % q() == level_w(7, c) % q(),
{
    if c == 0 {
        lemma_block_root_0();
    } else if c == 1 {
        lemma_block_root_1();
    } else if c == 2 {
        lemma_block_root_2();
    } else if c == 3 {
        lemma_block_root_3();
    } else if c == 4 {
        lemma_block_root_4();
    } else if c == 5 {
        lemma_block_root_5();
    } else if c == 6 {
        lemma_block_root_6();
    } else if c == 7 {
        lemma_block_root_7();
    } else if c == 8 {
        lemma_block_root_8();
    } else if c == 9 {
        lemma_block_root_9();
    } else if c == 10 {
        lemma_block_root_10();
    } else if c == 11 {
        lemma_block_root_11();
    } else if c == 12 {
        lemma_block_root_12();
    } else if c == 13 {
        lemma_block_root_13();
    } else if c == 14 {
        lemma_block_root_14();
    } else if c == 15 {
        lemma_block_root_15();
    } else if c == 16 {
        lemma_block_root_16();
    } else if c == 17 {
        lemma_block_root_17();
    } else if c == 18 {
        lemma_block_root_18();
    } else if c == 19 {
        lemma_block_root_19();
    } else if c == 20 {
        lemma_block_root_20();
    } else if c == 21 {
        lemma_block_root_21();
    } else if c == 22 {
        lemma_block_root_22();
    } else if c == 23 {
        lemma_block_root_23();
    } else if c == 24 {
        lemma_block_root_24();
    } else if c == 25 {
        lemma_block_root_25();
    } else if c == 26 {
        lemma_block_root_26();
    } else if c == 27 {
        lemma_block_root_27();
    } else if c == 28 {
        lemma_block_root_28();
    } else if c == 29 {
        lemma_block_root_29();
    } else if c == 30 {
        lemma_block_root_30();
    } else if c == 31 {
        lemma_block_root_31();
    } else if c == 32 {
        lemma_block_root_32();
    } else if c == 33 {
        lemma_block_root_33();
    } else if c == 34 {
        lemma_block_root_34();
    } else if c == 35 {
        lemma_block_root_35();
    } else if c == 36 {
        lemma_block_root_36();
    } else if c == 37 {
        lemma_block_root_37();
    } else if c == 38 {
        lemma_block_root_38();
    } else if c == 39 {
        lemma_block_root_39();
    } else if c == 40 {
        lemma_block_root_40();
    } else if c == 41 {
        lemma_block_root_41();
    } else if c == 42 {
        lemma_block_root_42();
    } else if c == 43 {
        lemma_block_root_43();
    } else if c == 44 {
        lemma_block_root_44();
    } else if c == 45 {
        lemma_block_root_45();
    } else if c == 46 {
        lemma_block_root_46();
    } else if c == 47 {
        lemma_block_root_47();
    } else if c == 48 {
        lemma_block_root_48();
    } else if c == 49 {
        lemma_block_root_49();
    } else if c == 50 {
        lemma_block_root_50();
    } else if c == 51 {
        lemma_block_root_51();
    } else if c == 52 {
        lemma_block_root_52();
    } else if c == 53 {
        lemma_block_root_53();
    } else if c == 54 {
        lemma_block_root_54();
    } else if c == 55 {
        lemma_block_root_55();
    } else if c == 56 {
        lemma_block_root_56();
    } else if c == 57 {
        lemma_block_root_57();
    } else if c == 58 {
        lemma_block_root_58();
    } else if c == 59 {
        lemma_block_root_59();
    } else if c == 60 {
        lemma_block_root_60();
    } else if c == 61 {
        lemma_block_root_61();
    } else if c == 62 {
        lemma_block_root_62();
    } else if c == 63 {
        lemma_block_root_63();
    } else if c == 64 {
        lemma_block_root_64();
    } else if c == 65 {
        lemma_block_root_65();
    } else if c == 66 {
        lemma_block_root_66();
    } else if c == 67 {
        lemma_block_root_67();
    } else if c == 68 {
        lemma_block_root_68();
    } else if c == 69 {
        lemma_block_root_69();
    } else if c == 70 {
        lemma_block_root_70();
    } else if c == 71 {
        lemma_block_root_71();
    } else if c == 72 {
        lemma_block_root_72();
    } else if c == 73 {
        lemma_block_root_73();
    } else if c == 74 {
        lemma_block_root_74();
    } else if c == 75 {
        lemma_block_root_75();
    } else if c == 76 {
        lemma_block_root_76();
    } else if c == 77 {
        lemma_block_root_77();
    } else if c == 78 {
        lemma_block_root_78();
    } else if c == 79 {
        lemma_block_root_79();
    } else if c == 80 {
        lemma_block_root_80();
    } else if c == 81 {
        lemma_block_root_81();
    } else if c == 82 {
        lemma_block_root_82();
    } else if c == 83 {
        lemma_block_root_83();
    } else if c == 84 {
        lemma_block_root_84();
    } else if c == 85 {
        lemma_block_root_85();
    } else if c == 86 {
        lemma_block_root_86();
    } else if c == 87 {
        lemma_block_root_87();
    } else if c == 88 {
        lemma_block_root_88();
    } else if c == 89 {
        lemma_block_root_89();
    } else if c == 90 {
        lemma_block_root_90();
    } else if c == 91 {
        lemma_block_root_91();
    } else if c == 92 {
        lemma_block_root_92();
    } else if c == 93 {
        lemma_block_root_93();
    } else if c == 94 {
        lemma_block_root_94();
    } else if c == 95 {
        lemma_block_root_95();
    } else if c == 96 {
        lemma_block_root_96();
    } else if c == 97 {
        lemma_block_root_97();
    } else if c == 98 {
        lemma_block_root_98();
    } else if c == 99 {
        lemma_block_root_99();
    } else if c == 100 {
        lemma_block_root_100();
    } else if c == 101 {
        lemma_block_root_101();
    } else if c == 102 {
        lemma_block_root_102();
    } else if c == 103 {
        lemma_block_root_103();
    } else if c == 104 {
        lemma_block_root_104();
    } else if c == 105 {
        lemma_block_root_105();
    } else if c == 106 {
        lemma_block_root_106();
    } else if c == 107 {
        lemma_block_root_107();
    } else if c == 108 {
        lemma_block_root_108();
    } else if c == 109 {
        lemma_block_root_109();
    } else if c == 110 {
        lemma_block_root_110();
    } else if c == 111 {
        lemma_block_root_111();
    } else if c == 112 {
        lemma_block_root_112();
    } else if c == 113 {
        lemma_block_root_113();
    } else if c == 114 {
        lemma_block_root_114();
    } else if c == 115 {
        lemma_block_root_115();
    } else if c == 116 {
        lemma_block_root_116();
    } else if c == 117 {
        lemma_block_root_117();
    } else if c == 118 {
        lemma_block_root_118();
    } else if c == 119 {
        lemma_block_root_119();
    } else if c == 120 {
        lemma_block_root_120();
    } else if c == 121 {
        lemma_block_root_121();
    } else if c == 122 {
        lemma_block_root_122();
    } else if c == 123 {
        lemma_block_root_123();
    } else if c == 124 {
        lemma_block_root_124();
    } else if c == 125 {
        lemma_block_root_125();
    } else if c == 126 {
        lemma_block_root_126();
    } else if c == 127 {
        lemma_block_root_127();
    }
}

// ---------------------------------------------------------------------------
// Finite sums of integers.

/// The sum of `f(k)` for `lo <= k < hi`.
pub open spec fn rsum(f: spec_fn(int) -> int, lo: int, hi: int) -> int
    decreases hi - lo,
{
    if hi <= lo {
        0
    } else {
        rsum(f, lo, hi - 1) + f(hi - 1)
    }
}

/// A sum splits at any point of its range.
pub(crate) proof fn lemma_rsum_split(f: spec_fn(int) -> int, lo: int, mid: int, hi: int)
    requires
        lo <= mid <= hi,
    ensures
        rsum(f, lo, hi) == rsum(f, lo, mid) + rsum(f, mid, hi),
    decreases hi - mid,
{
    if hi > mid {
        lemma_rsum_split(f, lo, mid, hi - 1);
    }
}

/// Sums agree where their terms agree.
pub(crate) proof fn lemma_rsum_ext(f: spec_fn(int) -> int, g: spec_fn(int) -> int, lo: int, hi: int)
    requires
        forall|k: int| lo <= k < hi ==> #[trigger] f(k) == g(k),
    ensures
        rsum(f, lo, hi) == rsum(g, lo, hi),
    decreases hi - lo,
{
    if hi > lo {
        lemma_rsum_ext(f, g, lo, hi - 1);
    }
}

/// Shifting the range of summation.
pub(crate) proof fn lemma_rsum_shift(f: spec_fn(int) -> int, g: spec_fn(int) -> int, lo: int, hi: int, s: int)
    requires
        forall|k: int| lo <= k < hi ==> #[trigger] g(k) == f(k + s),
    ensures
        rsum(f, lo + s, hi + s) == rsum(g, lo, hi),
    decreases hi - lo,
{
    if hi > lo {
        lemma_rsum_shift(f, g, lo, hi - 1, s);
        assert(hi + s - 1 == (hi - 1) + s);
    }
}

/// Sums of congruent terms are congruent.
pub(crate) proof fn lemma_rsum_cong(f: spec_fn(int) -> int, g: spec_fn(int) -> int, lo: int, hi: int)
    requires
        forall|k: int| lo <= k < hi ==> #[trigger] f(k) % q() == g(k) % q(),
    ensures
        rsum(f, lo, hi) % q() == rsum(g, lo, hi) % q(),
    decreases hi - lo,
{
    lemma_constants();
    if hi > lo {
        lemma_rsum_cong(f, g, lo, hi - 1);
        lemma_add_mod_noop(rsum(f, lo, hi - 1), f(hi - 1), q());
        lemma_add_mod_noop(rsum(g, lo, hi - 1), g(hi - 1), q());
    }
}

/// A constant factor comes out of a sum.
pub(crate) proof fn lemma_rsum_scale(f: spec_fn(int) -> int, g: spec_fn(int) -> int, c: int, lo: int, hi: int)
    requires
        forall|k: int| lo <= k < hi ==> #[trigger] g(k) == c * f(k),
    ensures
        rsum(g, lo, hi) == c * rsum(f, lo, hi),
    decreases hi - lo,
{
    if hi > lo {
        lemma_rsum_scale(f, g, c, lo, hi - 1);
        assert(c * rsum(f, lo, hi - 1) + c * f(hi - 1) == c * (rsum(f, lo, hi - 1) + f(hi - 1))) by (nonlinear_arith);
    }
}

/// The sum of termwise sums.
pub(crate) proof fn lemma_rsum_add(f: spec_fn(int) -> int, g: spec_fn(int) -> int, h: spec_fn(int) -> int, lo: int, hi: int)
    requires
        forall|k: int| lo <= k < hi ==> #[trigger] h(k) == f(k) + g(k),
    ensures
        rsum(h, lo, hi) == rsum(f, lo, hi) + rsum(g, lo, hi),
    decreases hi - lo,
{
    if hi > lo {
        lemma_rsum_add(f, g, h, lo, hi - 1);
    }
}

/// A sum of zeros.
pub(crate) proof fn lemma_rsum_zero(f: spec_fn(int) -> int, lo: int, hi: int)
    requires
        forall|k: int| lo <= k < hi ==> #[trigger] f(k) == 0,
    ensures
        rsum(f, lo, hi) == 0,
    decreases hi - lo,
{
    if hi > lo {
        lemma_rsum_zero(f, lo, hi - 1);
    }
}

/// A double sum may be taken in either order.
proof fn lemma_rsum_swap(g: spec_fn(int, int) -> int, n: int, m: int)
    requires
        n >= 0,
        m >= 0,
    ensures
        rsum(|i: int| rsum(|k: int| g(i, k), 0, m), 0, n) == rsum(|k: int| rsum(|i: int| g(i, k), 0, n), 0, m),
    decreases n,
{
    if n == 0 {
        lemma_rsum_zero(|k: int| rsum(|i: int| g(i, k), 0, 0), 0, m);
    } else {
        lemma_rsum_swap(g, n - 1, m);
        let f1 = |k: int| rsum(|i: int| g(i, k), 0, n - 1);
        let f2 = |k: int| g(n - 1, k);
        let h = |k: int| rsum(|i: int| g(i, k), 0, n);
        lemma_rsum_add(f1, f2, h, 0, m);
        lemma_rsum_ext(|k: int| g(n - 1, k), f2, 0, m);
    }
}

// ---------------------------------------------------------------------------
// Residues modulo X^B - w.

/// `sum_d x[t + B d] w^d` for `d < n`: coefficient `t` of the residue of `x`
/// modulo `X^B - w`, when `n B` is the length of `x`.
pub open spec fn bsum(x: Seq<int>, b: int, w: int, t: int, n: int) -> int {
    rsum(|d: int| x[t + b * d] * pow(w, d as nat), 0, n)
}

/// Even and odd powers through the square.
proof fn lemma_pow_facts(z: int, n: nat)
    ensures
        pow(z, 2 * n) == pow(z * z, n),
        pow(z, 2 * n + 1) == z * pow(z * z, n),
{
    reveal_with_fuel(pow, 3);
    assert(pow(z, 2) == z * z);
    lemma_pow_multiplies(z, 2, n);
    reveal(pow);
    assert(pow(z, (2 * n + 1) as nat) == z * pow(z, (2 * n) as nat));
}

/// A residue modulo `X^L - z` from two residues modulo `X^(2L) - z^2`.
proof fn lemma_bsum_split(x: Seq<int>, l: int, z: int, t: int, n: int)
    requires
        n >= 0,
    ensures
        bsum(x, l, z, t, 2 * n) == bsum(x, 2 * l, z * z, t, n) + z * bsum(x, 2 * l, z * z, t + l, n),
    decreases n,
{
    if n > 0 {
        lemma_bsum_split(x, l, z, t, n - 1);
        let d = n - 1;
        let f = |k: int| x[t + l * k] * pow(z, k as nat);
        let g0 = |k: int| x[t + (2 * l) * k] * pow(z * z, k as nat);
        let g1 = |k: int| x[(t + l) + (2 * l) * k] * pow(z * z, k as nat);
        assert(rsum(f, 0, 2 * n) == rsum(f, 0, 2 * n - 1) + f(2 * n - 1));
        assert(rsum(f, 0, 2 * n - 1) == rsum(f, 0, 2 * d) + f(2 * d));
        assert(rsum(g0, 0, n) == rsum(g0, 0, d) + g0(d));
        assert(rsum(g1, 0, n) == rsum(g1, 0, d) + g1(d));
        lemma_pow_facts(z, d as nat);
        assert(t + l * (2 * d) == t + (2 * l) * d) by (nonlinear_arith);
        assert(t + l * (2 * d + 1) == (t + l) + (2 * l) * d) by (nonlinear_arith);
        assert(2 * n - 1 == 2 * d + 1);
        let pd = pow(z * z, d as nat);
        assert(f(2 * d) == g0(d));
        assert(f(2 * d + 1) == x[(t + l) + (2 * l) * d] * (z * pd));
        assert(z * (rsum(g1, 0, d) + g1(d)) == z * rsum(g1, 0, d) + x[(t + l) + (2 * l) * d] * (z * pd))
            by (nonlinear_arith) requires g1(d) == x[(t + l) + (2 * l) * d] * pd;
    }
}

/// Congruent moduli give congruent residues.
proof fn lemma_bsum_cong(x: Seq<int>, b: int, w: int, w2: int, t: int, n: int)
    requires
        w % q() == w2 % q(),
    ensures
        bsum(x, b, w, t, n) % q() == bsum(x, b, w2, t, n) % q(),
{
    lemma_constants();
    let f = |d: int| x[t + b * d] * pow(w, d as nat);
    let g = |d: int| x[t + b * d] * pow(w2, d as nat);
    assert forall|d: int| 0 <= d < n implies #[trigger] f(d) % q() == g(d) % q() by {
        lemma_pow_mod_noop(w, d as nat, q());
        lemma_pow_mod_noop(w2, d as nat, q());
        lemma_mul_mod_noop_right(x[t + b * d], pow(w, d as nat), q());
        lemma_mul_mod_noop_right(x[t + b * d], pow(w2, d as nat), q());
    }
    lemma_rsum_cong(f, g, 0, n);
}

// ---------------------------------------------------------------------------
// What the forward layers compute.

/// The block size after `m` forward layers.
pub open spec fn blk(m: int) -> int {
    if m <= 0 { 256 } else if m == 1 { 128 } else if m == 2 { 64 } else if m == 3 { 32 }
    else if m == 4 { 16 } else if m == 5 { 8 } else if m == 6 { 4 } else { 2 }
}

/// Block sizes, block counts and butterfly distances of level `m`.
proof fn lemma_level_consts(m: int)
    requires
        0 <= m <= 6,
    ensures
        fwd_len(m) == blk(m + 1),
        blk(m) == 2 * fwd_len(m),
        lvl_pow(m + 1) == 2 * lvl_pow(m),
        128int / fwd_len(m) == lvl_pow(m),
        lvl_pow(m) * blk(m) == 256,
        is_layer_len(fwd_len(m)),
        m >= 1 ==> lvl_pow(m) == 2 * lvl_pow(m - 1),
        1 <= lvl_pow(m) <= 64,
{
}

/// The zeta of block `c` at level `m` squares to the block's modulus.
proof fn lemma_level_square(m: int, c: int)
    requires
        0 <= m <= 6,
        0 <= c < lvl_pow(m),
    ensures
        (tz(lvl_pow(m) + c) * tz(lvl_pow(m) + c)) % q() == level_w(m, c) % q(),
{
    lemma_constants();
    lemma_level_consts(m);
    if m == 0 {
        lemma_tz_one();
        lemma_neg_mod(1);
    } else {
        let kk = lvl_pow(m - 1) + c / 2;
        lemma_tz_square(kk);
        assert(lvl_pow(m) + c == 2 * kk + c % 2);
        lemma_mod_bound(zeta_spec(kk) * mont_r_inv(), q());
        if c % 2 == 0 {
            lemma_small_mod(tz(kk) as nat, q() as nat);
        } else {
            lemma_mod_add_multiples_vanish(-tz(kk), q());
        }
    }
}

/// A Montgomery product by a table zeta is a product by the zeta's residue.
proof fn lemma_fq_tz(k: int, v: int, b1: int)
    requires
        v % q() == b1 % q(),
    ensures
        fqmul_spec(zeta_spec(k), v) % q() == (tz(k) * b1) % q(),
{
    lemma_constants();
    let zs = zeta_spec(k);
    let ri = mont_r_inv();
    assert(zs * v * ri == (zs * ri) * v) by (nonlinear_arith);
    lemma_mul_mod_noop_left(zs * ri, v, q());
    lemma_cong_mul(tz(k), v, b1);
    lemma_cong_mod(zs * v * ri);
}

/// After `m` forward layers, entry `t` of block `c` is coefficient `t` of
/// the residue of the input modulo `X^blk(m) - level_w(m, c)`.
pub proof fn lemma_ntt_level(x: Seq<int>, m: int)
    requires
        x.len() == 256,
        0 <= m <= 7,
    ensures
        forall|c: int, t: int| 0 <= c < lvl_pow(m) && 0 <= t < blk(m) ==>
            #[trigger] ntt_layers(x, m as nat)[c * blk(m) + t] % q()
                == bsum(x, blk(m), level_w(m, c), t, lvl_pow(m)) % q(),
    decreases m,
{
    lemma_constants();
    if m == 0 {
        assert forall|c: int, t: int| 0 <= c < lvl_pow(m) && 0 <= t < blk(m) implies
            #[trigger] ntt_layers(x, m as nat)[c * blk(m) + t] % q()
                == bsum(x, blk(m), level_w(m, c), t, lvl_pow(m)) % q() by {
            reveal(pow);
            let f = |d: int| x[t + 256 * d] * pow(-1int, d as nat);
            assert(pow(-1int, 0nat) == 1);
            assert(rsum(f, 0, 1) == rsum(f, 0, 0) + f(0));
            assert(c == 0);
        }
    } else {
        let m0 = m - 1;
        lemma_ntt_level(x, m0);
        lemma_level_consts(m0);
        crate::reference::ntt::lemma_ntt_layers_len(x, m0 as nat);
        let y = ntt_layers(x, m0 as nat);
        let l = fwd_len(m0);
        let p = lvl_pow(m0);
        assert forall|c2: int, t: int| 0 <= c2 < lvl_pow(m) && 0 <= t < blk(m) implies
            #[trigger] ntt_layers(x, m as nat)[c2 * blk(m) + t] % q()
                == bsum(x, blk(m), level_w(m, c2), t, lvl_pow(m)) % q() by {
            let c = c2 / 2;
            let h = c2 % 2;
            let j = c2 * l + t;
            assert(c2 == 2 * c + h);
            assert(j == (2 * l) * c + (h * l + t)) by (nonlinear_arith)
                requires j == c2 * l + t, c2 == 2 * c + h;
            assert(0 <= h * l + t < 2 * l) by (nonlinear_arith) requires 0 <= h <= 1, 0 <= t < l;
            lemma_fundamental_div_mod_converse(j, 2 * l, c, h * l + t);
            assert(0 <= c < p);
            assert(j < 256) by (nonlinear_arith)
                requires j == (2 * l) * c + (h * l + t), 0 <= c < p, h * l + t < 2 * l, p * (2 * l) == 256;
            assert(0 <= j);
            assert(c * (2 * l) + t == (2 * l) * c + t) by (nonlinear_arith);
            assert(c * (2 * l) + (t + l) == (2 * l) * c + t + l) by (nonlinear_arith);
            let b0 = bsum(x, 2 * l, level_w(m0, c), t, p);
            let b1 = bsum(x, 2 * l, level_w(m0, c), t + l, p);
            assert(y[(2 * l) * c + t] % q() == b0 % q());
            assert(y[(2 * l) * c + t + l] % q() == b1 % q());
            let k = p + c;
            assert(128int / l + j / (2 * l) == k);
            lemma_level_square(m0, c);
            let wn = level_w(m, c2);
            assert(wn == if h == 0 { tz(k) } else { -tz(k) });
            assert(wn * wn == tz(k) * tz(k)) by (nonlinear_arith) requires wn == tz(k) || wn == -tz(k);
            lemma_bsum_split(x, l, wn, t, p);
            lemma_bsum_cong(x, 2 * l, wn * wn, level_w(m0, c), t, p);
            lemma_bsum_cong(x, 2 * l, wn * wn, level_w(m0, c), t + l, p);
            let s0 = bsum(x, 2 * l, wn * wn, t, p);
            let s1 = bsum(x, 2 * l, wn * wn, t + l, p);
            // the layer's value
            let v = ntt_layers(x, m as nat)[j];
            lemma_cong_mul(wn, s1, b1);
            lemma_cong_add(s0, wn * s1, b0, wn * b1);
            if h == 0 {
                assert(j % (2 * l) < l);
                assert(v == (y[j] + fqmul_spec(zeta_spec(k), y[j + l])) % q());
                lemma_fq_tz(k, y[j + l], b1);
                lemma_cong_mod(fqmul_spec(zeta_spec(k), y[j + l]));
                lemma_cong_add(y[j], fqmul_spec(zeta_spec(k), y[j + l]), b0, tz(k) * b1);
                lemma_cong_mod(y[j] + fqmul_spec(zeta_spec(k), y[j + l]));
            } else {
                assert(j % (2 * l) >= l);
                assert(v == (y[j - l] - fqmul_spec(zeta_spec(k), y[j])) % q());
                lemma_fq_tz(k, y[j], b1);
                lemma_cong_mod(fqmul_spec(zeta_spec(k), y[j]));
                lemma_cong_sub(y[j - l], fqmul_spec(zeta_spec(k), y[j]), b0, tz(k) * b1);
                lemma_cong_mod(y[j - l] - fqmul_spec(zeta_spec(k), y[j]));
                assert(b0 - tz(k) * b1 == b0 + wn * b1) by (nonlinear_arith) requires wn == -tz(k);
            }
            assert(c2 * blk(m) + t == j);
        }
    }
}

// ---------------------------------------------------------------------------
// Evaluation at a root of X^256 + 1.

/// `sum_k x[k] r^k` over the 256 coefficients.
pub open spec fn ev(x: Seq<int>, r: int) -> int {
    bsum(x, 1, r, 0, 256)
}

/// The evaluation as a plain sum over the coefficients.
proof fn lemma_ev_plain(x: Seq<int>, r: int)
    ensures
        ev(x, r) == rsum(|k: int| x[k] * pow(r, k as nat), 0, 256),
{
    lemma_rsum_ext(|d: int| x[0 + 1 * d] * pow(r, d as nat), |k: int| x[k] * pow(r, k as nat), 0, 256);
}

/// The negacyclic coefficient sum as a finite sum.
proof fn lemma_negacyclic_rsum(a: Seq<int>, b: Seq<int>, k: int, n: nat)
    ensures
        negacyclic_sum(a, b, k, n) == rsum(|i: int| negacyclic_term(a, b, k, i), 0, n as int),
    decreases n,
{
    if n > 0 {
        lemma_negacyclic_rsum(a, b, k, (n - 1) as nat);
    }
}

/// Row `i` of the product's evaluation: `a_i r^i` times the evaluation of `b`.
proof fn lemma_ev_row(a: Seq<int>, b: Seq<int>, r: int, i: int)
    requires
        0 <= i < 256,
        pow(r, 256) % q() == q() - 1,
    ensures
        rsum(|k: int| negacyclic_term(a, b, k, i) * pow(r, k as nat), 0, 256) % q()
            == (a[i] * pow(r, i as nat) * rsum(|j: int| b[j] * pow(r, j as nat), 0, 256)) % q(),
{
    lemma_constants();
    let g = |k: int| negacyclic_term(a, b, k, i) * pow(r, k as nat);
    let h = |j: int| a[i] * b[j] * pow(r, (i + j) as nat);
    lemma_rsum_split(g, 0, i, 256);
    // the upper part: k = j + i
    let g_hi = |j: int| g(j + i);
    lemma_rsum_shift(g, g_hi, 0, 256 - i, i);
    assert forall|j: int| 0 <= j < 256 - i implies #[trigger] g_hi(j) == h(j) by {
        assert(j + i - i == j);
        assert((j + i) as nat == (i + j) as nat);
    }
    lemma_rsum_ext(g_hi, h, 0, 256 - i);
    // the lower part: k = j + i - 256, with r^256 = -1
    let g_lo = |j: int| g(j + (i - 256));
    lemma_rsum_shift(g, g_lo, 256 - i, 256, i - 256);
    assert forall|j: int| 256 - i <= j < 256 implies #[trigger] g_lo(j) % q() == h(j) % q() by {
        let k = j + i - 256;
        assert(0 <= k < i);
        assert(k - i + 256 == j);
        assert(g_lo(j) == -(a[i] * b[j]) * pow(r, k as nat));
        lemma_pow_adds(r, k as nat, 256);
        assert((k + 256) as nat == (i + j) as nat);
        let pk = pow(r, k as nat);
        let p256 = pow(r, 256);
        assert(h(j) == (a[i] * b[j] * pk) * p256) by (nonlinear_arith)
            requires h(j) == a[i] * b[j] * pow(r, (i + j) as nat), pow(r, (i + j) as nat) == pk * p256;
        lemma_cong_mul(a[i] * b[j] * pk, p256, q() - 1);
        assert((a[i] * b[j] * pk) * (q() - 1) == q() * (a[i] * b[j] * pk) + (-(a[i] * b[j]) * pk)) by (nonlinear_arith);
        lemma_mod_multiples_vanish(a[i] * b[j] * pk, -(a[i] * b[j]) * pk, q());
        assert(g_lo(j) == -(a[i] * b[j]) * pk) by (nonlinear_arith) requires g_lo(j) == -(a[i] * b[j]) * pow(r, k as nat), pk == pow(r, k as nat);
    }
    lemma_rsum_cong(g_lo, h, 256 - i, 256);
    lemma_rsum_split(h, 0, 256 - i, 256);
    assert(0 + (i - 256) == -(256 - i) + 0);
    // g = hi + lo ≡ h
    assert(rsum(g, 0, 256) == rsum(g, 0, i) + rsum(g, i, 256));
    assert(rsum(g, i, 256) == rsum(h, 0, 256 - i));
    assert(rsum(g, 0, i) == rsum(g_lo, 256 - i, 256));
    lemma_cong_mod(rsum(h, 0, 256 - i));
    lemma_cong_add(rsum(g_lo, 256 - i, 256), rsum(h, 0, 256 - i), rsum(h, 256 - i, 256), rsum(h, 0, 256 - i));
    // h = a_i r^i b_j r^j
    let e = |j: int| b[j] * pow(r, j as nat);
    assert forall|j: int| 0 <= j < 256 implies #[trigger] h(j) == (a[i] * pow(r, i as nat)) * e(j) by {
        lemma_pow_adds(r, i as nat, j as nat);
        assert((i + j) as nat == (i as nat + j as nat) as nat);
        let pi = pow(r, i as nat);
        let pj = pow(r, j as nat);
        assert(a[i] * b[j] * (pi * pj) == (a[i] * pi) * (b[j] * pj)) by (nonlinear_arith);
    }
    lemma_rsum_scale(e, h, a[i] * pow(r, i as nat), 0, 256);
}

/// Evaluation at a root of `X^256 + 1` maps the negacyclic product to the
/// product of the evaluations.
proof fn lemma_ev_mul(a: Seq<int>, b: Seq<int>, r: int)
    requires
        pow(r, 256) % q() == q() - 1,
    ensures
        ev(poly_mul_spec(a, b), r) % q() == (ev(a, r) * ev(b, r)) % q(),
{
    lemma_constants();
    let c = poly_mul_spec(a, b);
    lemma_ev_plain(c, r);
    lemma_ev_plain(a, r);
    lemma_ev_plain(b, r);
    let eb = rsum(|j: int| b[j] * pow(r, j as nat), 0, 256);
    let big = |i: int, k: int| negacyclic_term(a, b, k, i) * pow(r, k as nat);
    // reduced and unreduced coefficients
    let f1 = |k: int| c[k] * pow(r, k as nat);
    let f2 = |k: int| rsum(|i: int| big(i, k), 0, 256);
    assert forall|k: int| 0 <= k < 256 implies #[trigger] f1(k) % q() == f2(k) % q() by {
        let ns = negacyclic_sum(a, b, k, 256);
        lemma_negacyclic_rsum(a, b, k, 256);
        assert forall|i: int| 0 <= i < 256 implies #[trigger] big(i, k) == pow(r, k as nat) * negacyclic_term(a, b, k, i) by {
            assert(negacyclic_term(a, b, k, i) * pow(r, k as nat) == pow(r, k as nat) * negacyclic_term(a, b, k, i)) by (nonlinear_arith);
        }
        lemma_rsum_ext(|i: int| big(i, k), |i: int| pow(r, k as nat) * negacyclic_term(a, b, k, i), 0, 256);
        lemma_rsum_scale(|i: int| negacyclic_term(a, b, k, i), |i: int| pow(r, k as nat) * negacyclic_term(a, b, k, i), pow(r, k as nat), 0, 256);
        lemma_cong_mod(ns);
        lemma_cong_mul(pow(r, k as nat), ns % q(), ns);
        assert(ns * pow(r, k as nat) == pow(r, k as nat) * ns) by (nonlinear_arith);
    }
    lemma_rsum_cong(f1, f2, 0, 256);
    lemma_rsum_swap(big, 256, 256);
    lemma_rsum_ext(f2, |k: int| rsum(|i: int| big(i, k), 0, 256), 0, 256);
    // each row
    let rows = |i: int| rsum(|k: int| big(i, k), 0, 256);
    let target = |i: int| (a[i] * pow(r, i as nat)) * eb;
    assert forall|i: int| 0 <= i < 256 implies #[trigger] rows(i) % q() == target(i) % q() by {
        lemma_ev_row(a, b, r, i);
        lemma_rsum_ext(|k: int| big(i, k), |k: int| negacyclic_term(a, b, k, i) * pow(r, k as nat), 0, 256);
    }
    lemma_rsum_ext(|i: int| rsum(|k: int| big(i, k), 0, 256), rows, 0, 256);
    lemma_rsum_cong(rows, target, 0, 256);
    assert forall|i: int| 0 <= i < 256 implies #[trigger] target(i) == eb * (a[i] * pow(r, i as nat)) by {
        assert((a[i] * pow(r, i as nat)) * eb == eb * (a[i] * pow(r, i as nat))) by (nonlinear_arith);
    }
    lemma_rsum_scale(|i: int| a[i] * pow(r, i as nat), target, eb, 0, 256);
    assert(eb * ev(a, r) == ev(a, r) * ev(b, r)) by (nonlinear_arith) requires eb == ev(b, r);
}

// ---------------------------------------------------------------------------
// The last level: pairs of coefficients.

/// The moduli of level `m` raised to the number of blocks give -1.
proof fn lemma_level_pow(m: int, c: int)
    requires
        0 <= m <= 7,
        0 <= c < lvl_pow(m),
    ensures
        pow(level_w(m, c), lvl_pow(m) as nat) % q() == q() - 1,
    decreases m,
{
    lemma_constants();
    if m == 0 {
        reveal_with_fuel(pow, 2);
        lemma_neg_mod(1);
    } else {
        let m0 = m - 1;
        lemma_level_consts(m0);
        let c0 = c / 2;
        lemma_level_pow(m0, c0);
        lemma_level_square(m0, c0);
        let w = level_w(m, c);
        let p = lvl_pow(m0);
        assert(w == tz(p + c0) || w == -tz(p + c0));
        assert(w * w == tz(p + c0) * tz(p + c0)) by (nonlinear_arith) requires w == tz(p + c0) || w == -tz(p + c0);
        lemma_pow_facts(w, p as nat);
        assert(lvl_pow(m) as nat == 2 * (p as nat));
        lemma_pow_mod_noop(w * w, p as nat, q());
        lemma_pow_mod_noop(level_w(m0, c0), p as nat, q());
    }
}

/// The pair of entries of block `c` after all layers are the residue modulo
/// `X^2 - level_w(7, c)`.
pub proof fn lemma_ntt_pairs(x: Seq<int>, c: int, t: int)
    requires
        x.len() == 256,
        0 <= c < 128,
        0 <= t < 2,
    ensures
        ntt_spec(x)[2 * c + t] % q() == bsum(x, 2, level_w(7, c), t, 128) % q(),
{
    let m: int = 7;
    lemma_ntt_level(x, m);
    assert(blk(m) == 2 && lvl_pow(m) == 128);
    assert(0 <= c < lvl_pow(m) && 0 <= t < blk(m));
    assert(ntt_layers(x, m as nat)[c * blk(m) + t] % q() == bsum(x, blk(m), level_w(m, c), t, lvl_pow(m)) % q());
    assert(c * blk(m) + t == 2 * c + t);
    assert(ntt_spec(x) == ntt_layers(x, m as nat));
}

/// The root of block `c` is a root of `X^256 + 1`, and so is its negation.
proof fn lemma_block_root_pow(c: int)
    requires
        0 <= c < 128,
    ensures
        pow(block_root(c), 256) % q() == q() - 1,
        pow(-block_root(c), 256) % q() == q() - 1,
{
    lemma_constants();
    let r = block_root(c);
    lemma_block_root(c);
    lemma_level_pow(7, c);
    lemma_pow_facts(r, 128);
    lemma_pow_facts(-r, 128);
    assert((-r) * (-r) == r * r) by (nonlinear_arith);
    lemma_pow_mod_noop(r * r, 128, q());
    lemma_pow_mod_noop(level_w(7, c), 128, q());
}

/// Evaluating at the root of block `c` and at its negation gives the
/// block's pair combined with the root.
pub proof fn lemma_ev_pair(x: Seq<int>, c: int)
    requires
        x.len() == 256,
        0 <= c < 128,
    ensures
        ev(x, block_root(c)) % q()
            == (ntt_spec(x)[2 * c] + block_root(c) * ntt_spec(x)[2 * c + 1]) % q(),
        ev(x, -block_root(c)) % q()
            == (ntt_spec(x)[2 * c] - block_root(c) * ntt_spec(x)[2 * c + 1]) % q(),
{
    lemma_constants();
    let r = block_root(c);
    let w = level_w(7, c);
    let x0 = ntt_spec(x)[2 * c];
    let x1 = ntt_spec(x)[2 * c + 1];
    lemma_block_root(c);
    lemma_ntt_pairs(x, c, 0);
    lemma_ntt_pairs(x, c, 1);
    lemma_bsum_split(x, 1, r, 0, 128);
    lemma_bsum_split(x, 1, -r, 0, 128);
    assert((-r) * (-r) == r * r) by (nonlinear_arith);
    lemma_bsum_cong(x, 2, r * r, w, 0, 128);
    lemma_bsum_cong(x, 2, r * r, w, 1, 128);
    let s0 = bsum(x, 2, r * r, 0, 128);
    let s1 = bsum(x, 2, r * r, 1, 128);
    lemma_cong_mul(r, s1, x1);
    lemma_cong_add(s0, r * s1, x0, r * x1);
    assert((-r) * s1 == -(r * s1)) by (nonlinear_arith);
    lemma_cong_sub(s0, r * s1, x0, r * x1);
}

/// Evaluation of the Montgomery form is the Montgomery factor times the
/// evaluation.
proof fn lemma_ev_tomont(x: Seq<int>, r: int)
    ensures
        ev(poly_tomont_spec(x), r) % q() == (mont_r() * ev(x, r)) % q(),
{
    lemma_constants();
    let y = poly_tomont_spec(x);
    lemma_ev_plain(y, r);
    lemma_ev_plain(x, r);
    let f = |k: int| y[k] * pow(r, k as nat);
    let g = |k: int| mont_r() * (x[k] * pow(r, k as nat));
    assert forall|k: int| 0 <= k < 256 implies #[trigger] f(k) % q() == g(k) % q() by {
        lemma_cong_mod(x[k] * mont_r());
        lemma_cong_mul(pow(r, k as nat), y[k], x[k] * mont_r());
        assert((x[k] * mont_r()) * pow(r, k as nat) == mont_r() * (x[k] * pow(r, k as nat))) by (nonlinear_arith);
    }
    lemma_rsum_cong(f, g, 0, 256);
    lemma_rsum_scale(|k: int| x[k] * pow(r, k as nat), g, mont_r(), 0, 256);
}

/// `(a0 + r a1)(b0 + r b1)` expanded.
proof fn lemma_pair_expand(a0: int, a1: int, b0: int, b1: int, r: int)
    ensures
        (a0 + r * a1) * (b0 + r * b1) == (a0 * b0 + (r * r) * a1 * b1) + r * (a0 * b1 + a1 * b0),
{
    let x = a0 + r * a1;
    assert(x * (b0 + r * b1) == x * b0 + x * (r * b1)) by (nonlinear_arith);
    assert(x * b0 == a0 * b0 + r * (a1 * b0)) by (nonlinear_arith) requires x == a0 + r * a1;
    assert(x * (r * b1) == r * (a0 * b1) + (r * r) * a1 * b1) by (nonlinear_arith) requires x == a0 + r * a1;
    assert(r * (a0 * b1 + a1 * b0) == r * (a0 * b1) + r * (a1 * b0)) by (nonlinear_arith);
}

/// A pair `(c0, c1)` whose combinations with a root of `X^256 + 1` and its
/// negation are the products of those of `(a0, a1)` and `(b0, b1)` is their
/// product modulo `X^2 - w`, `w` the root's square.
proof fn lemma_pair_from_roots(a0: int, a1: int, b0: int, b1: int, c0: int, c1: int, r: int, w: int)
    requires
        (r * r) % q() == w % q(),
        pow(r, 256) % q() == q() - 1,
        (c0 + r * c1) % q() == ((a0 + r * a1) * (b0 + r * b1)) % q(),
        (c0 - r * c1) % q() == ((a0 - r * a1) * (b0 - r * b1)) % q(),
    ensures
        c0 % q() == (a0 * b0 + w * a1 * b1) % q(),
        c1 % q() == (a0 * b1 + a1 * b0) % q(),
{
    lemma_constants();
    let qq = q();
    let p0 = a0 * b0 + (r * r) * a1 * b1;
    let p1 = a0 * b1 + a1 * b0;
    lemma_pair_expand(a0, a1, b0, b1, r);
    lemma_pair_expand(a0, -a1, b0, -b1, r);
    assert(a0 * (-b1) + (-a1) * b0 == -p1) by (nonlinear_arith) requires p1 == a0 * b1 + a1 * b0;
    assert((r * r) * (-a1) * (-b1) == (r * r) * a1 * b1) by (nonlinear_arith);
    assert(r * (-a1) == -(r * a1)) by (nonlinear_arith);
    assert(r * (-b1) == -(r * b1)) by (nonlinear_arith);
    assert(r * (-p1) == -(r * p1)) by (nonlinear_arith);
    // sums and differences
    lemma_cong_add(c0 + r * c1, c0 - r * c1, p0 + r * p1, p0 - r * p1);
    assert((c0 + r * c1) + (c0 - r * c1) == 2 * c0);
    assert((p0 + r * p1) + (p0 - r * p1) == 2 * p0);
    lemma_cong_sub(c0 + r * c1, c0 - r * c1, p0 + r * p1, p0 - r * p1);
    assert((c0 + r * c1) - (c0 - r * c1) == (2 * r) * c1) by (nonlinear_arith);
    assert((p0 + r * p1) - (p0 - r * p1) == (2 * r) * p1) by (nonlinear_arith);
    // cancel 2: h = (q + 1) / 2
    let h = (qq + 1) / 2;
    assert(2 * h == qq + 1);
    lemma_cong_mul(h, 2 * c0, 2 * p0);
    assert(h * (2 * c0) == qq * c0 + c0) by (nonlinear_arith) requires 2 * h == qq + 1;
    assert(h * (2 * p0) == qq * p0 + p0) by (nonlinear_arith) requires 2 * h == qq + 1;
    lemma_mod_multiples_vanish(c0, c0, qq);
    lemma_mod_multiples_vanish(p0, p0, qq);
    // cancel 2 r: its inverse is -h r^255
    let r255 = pow(r, 255);
    reveal(pow);
    assert(pow(r, 256) == r * r255);
    let u = -(h * r255);
    lemma_cong_mul(u, (2 * r) * c1, (2 * r) * p1);
    let t = r * r255;
    assert(u * ((2 * r) * c1) == -((2 * h) * t) * c1) by (nonlinear_arith) requires u == -(h * r255), t == r * r255;
    assert(u * ((2 * r) * p1) == -((2 * h) * t) * p1) by (nonlinear_arith) requires u == -(h * r255), t == r * r255;
    // -(2h) t = -(q + 1) t and t = -1 mod q, so the factor is 1 mod q
    let f = -((2 * h) * t);
    assert(f == -(qq * t) - t) by (nonlinear_arith) requires 2 * h == qq + 1, f == -((2 * h) * t);
    lemma_mod_multiples_vanish(-t, -t, qq);
    assert(f == qq * (-t) + (-t)) by (nonlinear_arith) requires f == -(qq * t) - t;
    assert(f % qq == (-t) % qq);
    lemma_cong_sub(0, t, 0, qq - 1);
    assert((0 - (qq - 1)) % qq == 1) by {
        lemma_mod_add_multiples_vanish(0 - (qq - 1), qq);
        lemma_small_mod(1, qq as nat);
    }
    assert(f % qq == 1);
    lemma_cong_mul(c1, f, 1);
    lemma_cong_mul(p1, f, 1);
    assert(f * c1 == c1 * f) by (nonlinear_arith);
    assert(f * p1 == p1 * f) by (nonlinear_arith);
    // r^2 = w
    lemma_cong_mul(a1 * b1, r * r, w);
    assert((r * r) * a1 * b1 == (a1 * b1) * (r * r)) by (nonlinear_arith);
    assert(w * a1 * b1 == (a1 * b1) * w) by (nonlinear_arith);
    lemma_cong_add(a0 * b0, (r * r) * a1 * b1, a0 * b0, w * a1 * b1);
}

// ---------------------------------------------------------------------------
// Multiplication in the NTT domain.

/// Products of congruent factors are congruent.
proof fn lemma_cong_mul2(x: int, y: int, x2: int, y2: int)
    requires
        x % q() == x2 % q(),
        y % q() == y2 % q(),
    ensures
        (x * y) % q() == (x2 * y2) % q(),
{
    lemma_cong_mul(y, x, x2);
    lemma_cong_mul(x2, y, y2);
}

/// The block pairs of the transforms of the Montgomery forms of `a`, `b`
/// and their product: the product's pair, times 2^64, is the product of the
/// factors' pairs modulo `X^2 - w`.
proof fn lemma_block_products(a: Seq<int>, b: Seq<int>, c: int)
    requires
        0 <= c < 128,
    ensures
        ({
            let u = ntt_spec(poly_tomont_spec(a));
            let v = ntt_spec(poly_tomont_spec(b));
            let p = ntt_spec(poly_tomont_spec(poly_mul_spec(a, b)));
            let w = level_w(7, c);
            &&& (mont_r() * p[2 * c]) % q() == (u[2 * c] * v[2 * c] + w * u[2 * c + 1] * v[2 * c + 1]) % q()
            &&& (mont_r() * p[2 * c + 1]) % q() == (u[2 * c] * v[2 * c + 1] + u[2 * c + 1] * v[2 * c]) % q()
        }),
{
    lemma_constants();
    let ta = poly_tomont_spec(a);
    let tb = poly_tomont_spec(b);
    let tp = poly_tomont_spec(poly_mul_spec(a, b));
    let u = ntt_spec(ta);
    let v = ntt_spec(tb);
    let p = ntt_spec(tp);
    let w = level_w(7, c);
    let r = block_root(c);
    let rr = mont_r();
    lemma_block_root(c);
    lemma_block_root_pow(c);
    lemma_ev_pair(ta, c);
    lemma_ev_pair(tb, c);
    lemma_ev_pair(tp, c);
    // at the root r
    lemma_ev_tomont(a, r);
    lemma_ev_tomont(b, r);
    lemma_ev_tomont(poly_mul_spec(a, b), r);
    lemma_ev_mul(a, b, r);
    let (ea, eb, eab) = (ev(a, r), ev(b, r), ev(poly_mul_spec(a, b), r));
    lemma_cong_mul2(u[2 * c] + r * u[2 * c + 1], v[2 * c] + r * v[2 * c + 1], ev(ta, r), ev(tb, r));
    lemma_cong_mul2(ev(ta, r), ev(tb, r), rr * ea, rr * eb);
    assert((rr * ea) * (rr * eb) == rr * (rr * (ea * eb))) by (nonlinear_arith);
    lemma_cong_mul(rr, eab, ea * eb);
    lemma_cong_mul(rr, rr * eab, rr * (ea * eb));
    lemma_cong_mul(rr, ev(tp, r), rr * eab);
    lemma_cong_mul(rr, ev(tp, r), p[2 * c] + r * p[2 * c + 1]);
    assert(rr * (p[2 * c] + r * p[2 * c + 1]) == rr * p[2 * c] + r * (rr * p[2 * c + 1])) by (nonlinear_arith);
    // at the root -r
    lemma_ev_tomont(a, -r);
    lemma_ev_tomont(b, -r);
    lemma_ev_tomont(poly_mul_spec(a, b), -r);
    lemma_ev_mul(a, b, -r);
    let (fa, fb, fab) = (ev(a, -r), ev(b, -r), ev(poly_mul_spec(a, b), -r));
    lemma_cong_mul2(u[2 * c] - r * u[2 * c + 1], v[2 * c] - r * v[2 * c + 1], ev(ta, -r), ev(tb, -r));
    lemma_cong_mul2(ev(ta, -r), ev(tb, -r), rr * fa, rr * fb);
    assert((rr * fa) * (rr * fb) == rr * (rr * (fa * fb))) by (nonlinear_arith);
    lemma_cong_mul(rr, fab, fa * fb);
    lemma_cong_mul(rr, rr * fab, rr * (fa * fb));
    lemma_cong_mul(rr, ev(tp, -r), rr * fab);
    lemma_cong_mul(rr, ev(tp, -r), p[2 * c] - r * p[2 * c + 1]);
    assert(rr * (p[2 * c] - r * p[2 * c + 1]) == rr * p[2 * c] - r * (rr * p[2 * c + 1])) by (nonlinear_arith);
    lemma_pair_from_roots(u[2 * c], u[2 * c + 1], v[2 * c], v[2 * c + 1], rr * p[2 * c], rr * p[2 * c + 1], r, w);
}

/// The NTT-domain product of two block pairs is 2^-64 times their product
/// modulo `X^2 - w`.
proof fn lemma_bm_block(x: Seq<int>, y: Seq<int>, c: int)
    requires
        0 <= c < 128,
    ensures
        poly_basemul_spec(x, y)[2 * c] % q()
            == (mont_r_inv() * (x[2 * c] * y[2 * c] + level_w(7, c) * x[2 * c + 1] * y[2 * c + 1])) % q(),
        poly_basemul_spec(x, y)[2 * c + 1] % q()
            == (mont_r_inv() * (x[2 * c] * y[2 * c + 1] + x[2 * c + 1] * y[2 * c])) % q(),
{
    lemma_constants();
    let i = c / 2;
    let ri = mont_r_inv();
    let zs = zeta_spec(64 + i);
    let w = level_w(7, c);
    let k = 2 * c;
    lemma_group(k);
    lemma_group(k + 1);
    assert(k / 4 == i);
    let (x0, x1, y0, y1) = (x[2 * c], x[2 * c + 1], y[2 * c], y[2 * c + 1]);
    let zz = if c % 2 == 0 { zs } else { (-zs) % q() };
    assert(lvl_pow(6) + c / 2 == 64 + i);
    if c % 2 == 0 {
        assert(k == 4 * i && k % 4 == 0 && (k + 1) % 4 == 1);
        assert(poly_basemul_spec(x, y)[k] == basemul_pair_spec(x0, x1, y0, y1, zz).0);
        assert(poly_basemul_spec(x, y)[k + 1] == basemul_pair_spec(x0, x1, y0, y1, zz).1);
        // ri zz = w
        assert(w == tz(64 + i));
        lemma_cong_mod(zs * ri);
        assert((ri * zz) % q() == w % q()) by {
            assert(ri * zz == zs * ri) by (nonlinear_arith) requires zz == zs;
        }
    } else {
        assert(k == 4 * i + 2 && k % 4 == 2 && (k + 1) % 4 == 3);
        assert(poly_basemul_spec(x, y)[k] == basemul_pair_spec(x0, x1, y0, y1, zz).0);
        assert(poly_basemul_spec(x, y)[k + 1] == basemul_pair_spec(x0, x1, y0, y1, zz).1);
        assert(w == -tz(64 + i));
        assert((ri * zz) % q() == w % q()) by {
            lemma_cong_mod(-zs);
            lemma_cong_mul(ri, zz, -zs);
            assert(ri * (-zs) == -(zs * ri)) by (nonlinear_arith);
            lemma_cong_mod(zs * ri);
            lemma_cong_sub(0, zs * ri, 0, tz(64 + i));
        }
    }
    lemma_pair_nf(x0, x1, y0, y1, zz);
    // first component: ri^2 zz x1 y1 + ri x0 y0 = ri (ri zz) x1 y1 + ri x0 y0
    let a1 = ri * x1 * y1;
    assert(ri * ri * zz * x1 * y1 == (ri * zz) * a1) by (nonlinear_arith) requires a1 == ri * x1 * y1;
    lemma_cong_mul(a1, ri * zz, w);
    assert((ri * zz) * a1 == a1 * (ri * zz)) by (nonlinear_arith);
    assert(a1 * w == ri * (w * x1 * y1)) by (nonlinear_arith) requires a1 == ri * x1 * y1;
    lemma_cong_add(ri * ri * zz * x1 * y1, ri * x0 * y0, ri * (w * x1 * y1), ri * x0 * y0);
    assert(ri * (w * x1 * y1) + ri * x0 * y0 == ri * (x0 * y0 + w * x1 * y1)) by (nonlinear_arith);
    lemma_cong_mod(pair_nf0(x0, x1, y0, y1, zz));
    assert(ri * x0 * y1 + ri * x1 * y0 == ri * (x0 * y1 + x1 * y0)) by (nonlinear_arith);
    lemma_cong_mod(pair_nf1(x0, x1, y0, y1));
}

/// Multiplication in the NTT domain is multiplication modulo `X^256 + 1`:
/// the product of the transforms of the Montgomery forms of `a` and `b` is
/// the transform of the Montgomery form of their negacyclic product.
pub proof fn lemma_ntt_mul(a: Seq<int>, b: Seq<int>)
    ensures
        poly_basemul_spec(ntt_spec(poly_tomont_spec(a)), ntt_spec(poly_tomont_spec(b)))
            == ntt_spec(poly_tomont_spec(poly_mul_spec(a, b))),
{
    lemma_constants();
    let u = ntt_spec(poly_tomont_spec(a));
    let v = ntt_spec(poly_tomont_spec(b));
    let tp = poly_tomont_spec(poly_mul_spec(a, b));
    let p = ntt_spec(tp);
    let ri = mont_r_inv();
    let rr = mont_r();
    assert(canonical(tp)) by {
        assert forall|k: int| 0 <= k < tp.len() implies 0 <= #[trigger] tp[k] < q() by {
            lemma_mod_bound(poly_mul_spec(a, b)[k] * rr, q());
        }
    }
    crate::reference::ntt::lemma_ntt_layers_canonical(tp, 7);
    assert forall|k: int| 0 <= k < 256 implies #[trigger] poly_basemul_spec(u, v)[k] == p[k] by {
        let c = k / 2;
        let t = k % 2;
        assert(k == 2 * c + t);
        lemma_block_products(a, b, c);
        lemma_bm_block(u, v, c);
        let w = level_w(7, c);
        let (u0, u1, v0, v1) = (u[2 * c], u[2 * c + 1], v[2 * c], v[2 * c + 1]);
        let e = if t == 0 { u0 * v0 + w * u1 * v1 } else { u0 * v1 + u1 * v0 };
        assert((rr * p[k]) % q() == e % q());
        assert(poly_basemul_spec(u, v)[k] % q() == (ri * e) % q());
        lemma_cong_mul(ri, e, rr * p[k]);
        assert(ri * (rr * p[k]) == (rr * ri) * p[k]) by (nonlinear_arith);
        lemma_cong_mul(p[k], rr * ri, 1);
        assert((rr * ri) * p[k] == p[k] * (rr * ri)) by (nonlinear_arith);
        lemma_small_mod(p[k] as nat, q() as nat);
        lemma_mod_bound(0, q());
        assert(0 <= poly_basemul_spec(u, v)[k] < q()) by {
            lemma_group(k);
            let i = k / 4;
            let zz = zeta_spec(64 + i);
            if k % 4 < 2 {
                lemma_pair_nf(u[4 * i], u[4 * i + 1], v[4 * i], v[4 * i + 1], zz);
                lemma_mod_bound(pair_nf0(u[4 * i], u[4 * i + 1], v[4 * i], v[4 * i + 1], zz), q());
                lemma_mod_bound(pair_nf1(u[4 * i], u[4 * i + 1], v[4 * i], v[4 * i + 1]), q());
            } else {
                let z2 = (-zz) % q();
                lemma_pair_nf(u[4 * i + 2], u[4 * i + 3], v[4 * i + 2], v[4 * i + 3], z2);
                lemma_mod_bound(pair_nf0(u[4 * i + 2], u[4 * i + 3], v[4 * i + 2], v[4 * i + 3], z2), q());
                lemma_mod_bound(pair_nf1(u[4 * i + 2], u[4 * i + 3], v[4 * i + 2], v[4 * i + 3]), q());
            }
        }
        lemma_small_mod(poly_basemul_spec(u, v)[k] as nat, q() as nat);
    }
    assert(poly_basemul_spec(u, v) =~= p);
}

/// Multiplying in the NTT domain and transforming back gives the product
/// modulo `X^256 + 1` and q: the transforms of the Montgomery forms of `a`
/// and `b`, multiplied, inverse-transformed and taken out of the Montgomery
/// domain, are the schoolbook negacyclic product of `a` and `b`.
pub proof fn lemma_ntt_mul_schoolbook(a: Seq<int>, b: Seq<int>)
    ensures
        poly_frommont_spec(invntt_spec(poly_basemul_spec(ntt_spec(poly_tomont_spec(a)), ntt_spec(poly_tomont_spec(b)))))
            == poly_mul_spec(a, b),
{
    lemma_constants();
    lemma_ntt_mul(a, b);
    let pm = poly_mul_spec(a, b);
    let tp = poly_tomont_spec(pm);
    assert(canonical(tp)) by {
        assert forall|k: int| 0 <= k < tp.len() implies 0 <= #[trigger] tp[k] < q() by {
            lemma_mod_bound(pm[k] * mont_r(), q());
        }
    }
    crate::reference::ntt::lemma_invntt_ntt(tp);
    assert forall|k: int| 0 <= k < 256 implies #[trigger] poly_frommont_spec(tp)[k] == pm[k] by {
        lemma_mod_bound(negacyclic_sum(a, b, k, 256), q());
        crate::reference::indcpa::lemma_mont_roundtrip(pm[k]);
    }
    assert(poly_frommont_spec(tp) =~= pm);
}

} // verus!
