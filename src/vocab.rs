//! The fixed vocabularies that tokens are looked up in.
use vstd::prelude::*;

verus! {

/// Compass directions, full and abbreviated, separated by single spaces.
pub const DIRECTIONS: &'static str = "\
    n s e w ne nw se sw north south east west northeast northwest southeast \
    southwest";

/// Street suffixes as the USPS lists them, standard and abbreviated, separated by single spaces.
pub const STREET_SUFFIXES: &'static str = "\
    allee alley ally aly anex annex annx anx arc arcade av ave aven avenu avenue avn avnue \
    bayoo bayou bch beach bend bg bgs bl blf blfs bluf bluff bluffs blvd bnd bot bottm bottom \
    boul boulevard boulv br branch brdge brg bridge brk brks brnch brook brooks btm burg burgs \
    byp bypa bypas bypass byps byu camp canyn canyon cape causeway causwa causway cen cent \
    center centers centr centre ci cir circ circl circle circles cirs ck clb clf clfs cliff \
    cliffs club cmn cmns cmp cnter cntr cnyn common commons cor corner corners cors course \
    court courts cove coves cp cpe cr crcl crcle crecent creek cres crescent cresent crest crk \
    crossing crossroad crossroads crscnt crse crsent crsnt crssing crssng crst crt cswy ct ctr \
    ctrs cts curv curve cv cvs cyn dale dam div divide dl dm dr driv drive drives drs drv dv \
    dvd est estate estates ests ex exp expr express expressway expw expy ext extension \
    extensions extn extnsn exts fall falls ferry field fields flat flats fld flds fls flt flts \
    ford fords forest forests forg forge forges fork forks fort frd frds freeway freewy frg \
    frgs frk frks frry frst frt frway frwy fry ft fwy garden gardens gardn gateway gatewy \
    gatway gdn gdns glen glens gln glns grden grdn grdns green greens grn grns grov grove \
    groves grv grvs gtway gtwy harb harbor harbors harbr haven havn hbr hbrs height heights \
    hgts highway highwy hill hills hiway hiwy hl hllw hls hollow hollows holw holws hrbor ht \
    hts hvn hway hwy inlet inlt is island islands isle isles islnd islnds iss jct jction jctn \
    jctns jcts junction junctions junctn juncton key keys knl knls knol knoll knolls ky kys la \
    lake lakes land landing lane lanes lck lcks ldg ldge lf lgt lgts light lights lk lks ln \
    lndg lndng loaf lock locks lodg lodge loop loops lp mall manor manors mdw mdws meadow \
    meadows medows mews mi mile mill mills mission missn ml mls mn mnr mnrs mnt mntain mntn \
    mntns motorway mount mountain mountains mountin msn mssn mt mtin mtn mtns mtwy nck neck \
    opas orch orchard orchrd oval overlook overpass ovl ovlk park parks parkway parkways \
    parkwy pass passage path paths pike pikes pine pines pk pkway pkwy pkwys pky pl place \
    plain plaines plains plaza pln plns plz plza pne pnes point points port ports pr prairie \
    prarie prk prr prt prts psge pt pts pw pwy rad radial radiel radl ramp ranch ranches rapid \
    rapids rd rdg rdge rdgs rds rest ri ridge ridges rise riv river rivr rn rnch rnchs road \
    roads route row rpd rpds rst rte rue run rvr shl shls shoal shoals shoar shoars shore \
    shores shr shrs skwy skyway smt spg spgs spng spngs spring springs sprng sprngs spur spurs \
    sq sqr sqre sqrs sqs squ square squares st sta station statn stn str stra strav strave \
    straven stravenue stravn stream street streets streme strm strt strvn strvnue sts sumit \
    sumitt summit te ter terr terrace throughway tl tpk tpke tr trace traces track tracks \
    trafficway trail trailer trails trak trce trfy trk trks trl trlr trlrs trls trnpk trpk \
    trwy tunel tunl tunls tunnel tunnels tunnl turn turnpike turnpk un underpass union unions \
    uns upas valley valleys vally vdct via viadct viaduct view views vill villag village \
    villages ville villg villiage vis vist vista vl vlg vlgs vlly vly vlys vst vsta vw vws \
    walk walks wall way ways well wells wl wls wy xc xg xing xrd xrds";

/// Whether `w` stands in `list` at position `i`, delimited by spaces or the list's ends.
pub open spec fn word_at(list: Seq<char>, w: Seq<char>, i: int) -> bool {
    &&& 0 <= i && i + w.len() <= list.len()
    &&& list.subrange(i, i + w.len()) == w
    &&& i == 0 || list[i - 1] == ' '
    &&& i + w.len() == list.len() || list[i + w.len()] == ' '
}

/// Whether `w` is one of the space-separated words of `list`.
pub open spec fn listed(list: Seq<char>, w: Seq<char>) -> bool {
    &&& w.len() > 0
    &&& forall|k: int| 0 <= k < w.len() ==> w[k] != ' '
    &&& exists|i: int| word_at(list, w, i)
}

fn word_at_exec(list: &Vec<char>, w: &Vec<char>, i: usize) -> (r: bool)
    requires
        i + w.len() <= list.len(),
    ensures
        r == word_at(list@, w@, i as int),
{
    let end = i + w.len();
    if !(i == 0 || list[i - 1] == ' ') || !(end == list.len() || list[end] == ' ') {
        return false;
    }
    let mut k: usize = 0;
    while k < w.len()
        invariant
            k <= w@.len(),
            end == i + w@.len() <= list@.len(),
            forall|j: int| 0 <= j < k ==> list@[i + j] == w@[j],
        decreases w@.len() - k,
    {
        if list[i + k] != w[k] {
            assert(list@.subrange(i as int, end as int)[k as int] != w@[k as int]);
            return false;
        }
        k += 1;
    }
    assert(list@.subrange(i as int, end as int) =~= w@);
    true
}

/// Whether `w` is one of the space-separated words of `list`.
pub fn is_listed(list: &Vec<char>, w: &Vec<char>) -> (r: bool)
    ensures
        r == listed(list@, w@),
{
    if w.len() == 0 || w.len() > list.len() {
        return false;
    }
    let mut k: usize = 0;
    while k < w.len()
        invariant
            k <= w@.len(),
            forall|j: int| 0 <= j < k ==> w@[j] != ' ',
        decreases w@.len() - k,
    {
        if w[k] == ' ' {
            return false;
        }
        k += 1;
    }
    let last = list.len() - w.len();
    let mut i: usize = 0;
    while i <= last
        invariant
            last + w.len() == list.len(),
            0 < w@.len(),
            forall|j: int| 0 <= j < w@.len() ==> w@[j] != ' ',
            forall|j: int| 0 <= j < i ==> !word_at(list@, w@, j),
        decreases last + 1 - i,
    {
        if word_at_exec(list, w, i) {
            return true;
        }
        i += 1;
    }
    assert forall|j: int| !word_at(list@, w@, j) by {
        if 0 <= j && j < i {
        }
    }
    false
}

} // verus!
