use vstd::prelude::*;
use crate::piece::{Color, Piece, PieceType};
use crate::square::{Square, file_of};
use crate::board::Board;
use crate::bitboard::lemma_word_identities;

verus! {

/// Keys of a white pawn on each square.
pub const KEYS_WHITE_PAWN: [u64; 64] = [
    10221792658196283441u64, 6435899792755562398u64, 8232370198018787527u64, 9330866000979772412u64,
    322027140390385485u64, 8877104660879223690u64, 5908666072782380355u64, 7889488153631187400u64,
    6322932004198279209u64, 7344492896201287222u64, 9942853247666127231u64, 3979667346446992468u64,
    5680488617001692869u64, 8007515520410186658u64, 18435602882332406139u64, 11515697002209261472u64,
    9759856941459744545u64, 10525192040190951374u64, 13084677733686176055u64, 13670011697936811948u64,
    10648654584060833085u64, 16018451408715445946u64, 7751820645103674547u64, 7712313150436917368u64,
    1408201495522729241u64, 5026030283124819046u64, 12959780953148432367u64, 15409162714044247556u64,
    8197871209392181941u64, 16231912930233881810u64, 10940597534598813419u64, 17627255716112325712u64,
    1452675088306465297u64, 11355811730983523326u64, 3829586314410788263u64, 12205583628010051420u64,
    2984171503134998317u64, 16463700836141411818u64, 10403773818889938979u64, 9443398896274565928u64,
    7591816851059125769u64, 18106713962732031638u64, 5094940199485864543u64, 2887823415309476788u64,
    15459456444430946981u64, 4131383997221708290u64, 2187003578131478619u64, 8469818678949432576u64,
    186610018754889985u64, 1109401233190294574u64, 8085920306461171223u64, 11573472575076758284u64,
    10474643223496469789u64, 8390677909902315802u64, 9537400595156019091u64, 6832701478361194968u64,
    13335388759848409849u64, 9154456238885340358u64, 2856094156260479183u64, 16314996647990928740u64,
    2162623943066201749u64, 3594242946851412786u64, 4186753746270983627u64, 1427331855518337456u64,
];

/// Keys of a black pawn on each square.
pub const KEYS_BLACK_PAWN: [u64; 64] = [
    15522117321767322609u64, 12514578060479512670u64, 173939392571437703u64, 1940254129636022972u64,
    7422172904738682637u64, 2131598330632298570u64, 14997021082437985027u64, 8365439969247110280u64,
    14573417500261868521u64, 3423722129966933750u64, 17027305407674671935u64, 1432896119621137172u64,
    15534739384491533957u64, 8290783964495216738u64, 16423735274927861563u64, 2841357323665150560u64,
    8793557675510389473u64, 7768385829161212046u64, 3765952199793427191u64, 5713542634089401964u64,
    8056942432365960445u64, 12890161265143864186u64, 5756581215681485427u64, 10322679256982106936u64,
    8622836345419057369u64, 16782448573039965478u64, 13867400648663560623u64, 65831729827892420u64,
    18126582915524573813u64, 8387146433893421458u64, 1589265783664690347u64, 8150468081506314000u64,
    2668908252265483729u64, 17038856275442310334u64, 14535949221803052903u64, 10855114392609918492u64,
    2149622361782673133u64, 5651389333466366634u64, 5188807547955678691u64, 5418791700193775080u64,
    6499353630259349961u64, 11953652676417711958u64, 17649284298310368287u64, 7682034045575230068u64,
    4335895090160544357u64, 4178778562786332354u64, 5719629694745597467u64, 17964482572379195328u64,
    2334665224892652737u64, 15746809496940367086u64, 1156393339234555863u64, 13332884415154411980u64,
    7261482887461240029u64, 13086807233005393370u64, 3650187802419625299u64, 4137822662826407064u64,
    7442072586891863737u64, 363639344087176582u64, 8143157336595972751u64, 363470100077650980u64,
    5964878483754628693u64, 7498635092812445682u64, 101638674382185355u64, 9046240041884054640u64,
];

/// Keys of a white knight on each square.
pub const KEYS_WHITE_KNIGHT: [u64; 64] = [
    12028666596887332785u64, 2505359858807908638u64, 8411242082025184327u64, 2516854300649369980u64,
    8961247562784683725u64, 13696432459526821130u64, 8936373602306779331u64, 7867104435632482120u64,
    9543843071909273513u64, 11094017099884062646u64, 11093897505926284543u64, 4828841877160223188u64,
    4561026109044383301u64, 8746483612707245346u64, 14996664976572280059u64, 1522812005182745888u64,
    17206855967225990817u64, 13747839417981808974u64, 10125622125062741175u64, 4147440635207030060u64,
    2592833384958233789u64, 5313520286643814458u64, 2307485534362095667u64, 10340505988069811704u64,
    7482058059619431577u64, 6808319443602367974u64, 3662232663329899375u64, 5715050221974727556u64,
    4134519728663962165u64, 15853899220579995218u64, 3763792519409267307u64, 8609231385012679120u64,
    8812046762868339089u64, 83819836649989502u64, 11436850459421989159u64, 3591609640467104988u64,
    1956912552586444461u64, 2497508486122280810u64, 10482953030645134243u64, 16403479940308594856u64,
    1794306679143376265u64, 1452493953825771542u64, 17450490363910012383u64, 1640974122101834036u64,
    17256198458991575589u64, 4601224820560477058u64, 1152124156401906651u64, 11779345477645107840u64,
    8535511781417808001u64, 15386703393838613934u64, 14046358011190940055u64, 8813133079788486796u64,
    7191294383183695005u64, 15581535686053730970u64, 8851560654084969235u64, 18428367279410104152u64,
    6980084029476221561u64, 1993098244733560390u64, 15163712923285107791u64, 13205670972186026724u64,
    13615111444065156629u64, 7461224512079598770u64, 10863718523050324299u64, 6768390281590710064u64,
];

/// Keys of a black knight on each square.
pub const KEYS_BLACK_KNIGHT: [u64; 64] = [
    15860010820283124593u64, 15787021928539935198u64, 11660956508643132935u64, 9252395073775437884u64,
    2485867076366546573u64, 3159443179525310922u64, 13881404123956768387u64, 13891574402961435144u64,
    15243399108655258473u64, 7216857105890142326u64, 3339572898373985983u64, 9976193480097517716u64,
    15640858646063945221u64, 4251474042987633122u64, 435360950411520699u64, 16121716613870585824u64,
    2472303004752708193u64, 5714916560454027790u64, 3462453070855714423u64, 16847734101488704492u64,
    3054522527135235197u64, 458320222485046522u64, 12747803491604415987u64, 8535277287972886712u64,
    3124867182293147737u64, 14018510292435048102u64, 5368239111126111535u64, 7160512210362288708u64,
    4728813593389713909u64, 11395340262428281618u64, 10783632340802756651u64, 16721194983088667792u64,
    8231362716457309521u64, 1634883781379550782u64, 9350774560849175271u64, 14828419306275748764u64,
    1250097902405344877u64, 14323993129579195434u64, 8461281659701336419u64, 13266957015996961640u64,
    15746883043921232201u64, 7859514416939430102u64, 13475727859874529183u64, 9225784613096574964u64,
    7531419400126896613u64, 10620193914974939202u64, 3610754416505278875u64, 524935571099434304u64,
    5787867232970376257u64, 9012665888309149294u64, 6403297897984478039u64, 11390112494949033804u64,
    12279188368840940637u64, 7499665570941787994u64, 12460789898019760339u64, 1382057431030831640u64,
    5413837020371254841u64, 12551016402930071302u64, 15887004052361438735u64, 3430984695593165220u64,
    10382520540502492629u64, 7158944655638507890u64, 9379174348134792971u64, 2903115541441546736u64,
];

/// Keys of a white bishop on each square.
pub const KEYS_WHITE_BISHOP: [u64; 64] = [
    8209990977597853489u64, 3709734193069013662u64, 10080562595292393415u64, 14828850110883241724u64,
    10620615711315293773u64, 17101170112517570186u64, 8998416623903650883u64, 1792893912181402824u64,
    12473601166604392233u64, 5649266362342418742u64, 1606393659058325631u64, 5732730090243358548u64,
    7126849565818129861u64, 14875249783297189538u64, 16465038543384455291u64, 16947301849214001824u64,
    15293976761684063777u64, 5294177032243487438u64, 1471058628782968887u64, 7753061669017739948u64,
    13528840765342100541u64, 2571692700524677562u64, 8522858161878596531u64, 9956317422289685368u64,
    13744835743777721369u64, 16418951262611179366u64, 10208393868171208431u64, 10421957380896598276u64,
    14693748797751046581u64, 11330572525493585874u64, 17847152574473113067u64, 1971281851800618832u64,
    18318009946394982673u64, 1212104541285988094u64, 12983663813078330535u64, 6812526217281417820u64,
    691284607702171181u64, 9583337035939676394u64, 5233824918578642723u64, 14370846517147596328u64,
    1102595081925958921u64, 5995237457068265878u64, 1165064986887717215u64, 18296706993834516148u64,
    9247783508968272293u64, 2767784341576111362u64, 6418314688929263451u64, 3831540695575508992u64,
    9163794089327515649u64, 12600165708619544366u64, 17165532137253881111u64, 5726287278784450060u64,
    2503391896010451997u64, 5222654105310553114u64, 8204485231718006419u64, 10068342390460591320u64,
    3382271592241564153u64, 9580987480023582662u64, 492979831752284111u64, 10232732445149405284u64,
    2964850073701698965u64, 9158905657428348466u64, 1412379768511810763u64, 6629319896117621936u64,
];

/// Keys of a black bishop on each square.
pub const KEYS_BLACK_BISHOP: [u64; 64] = [
    1319695926607844081u64, 4882986603065992030u64, 14293898410431617415u64, 1023898504161752508u64,
    9117632118124574221u64, 16500976555514245962u64, 15946952465655020035u64, 11798929846927142792u64,
    8078386343091327721u64, 14987568661917870582u64, 17545617223213279807u64, 12028745256754540052u64,
    13994597132294538629u64, 17536888803088773986u64, 3505651033889318459u64, 1806186745318407520u64,
    3529718245279345121u64, 12766429480458517390u64, 10693745222030371319u64, 18418214560799418732u64,
    15984622090181090301u64, 15929388376791674490u64, 12883344998736523635u64, 867142317092863544u64,
    12098256624947754969u64, 659199569514149926u64, 907109413349865647u64, 8862940524720900036u64,
    13075830715706628469u64, 45406791564084370u64, 9254065436931619755u64, 10172168779420766736u64,
    2764447191437974737u64, 15190835840878657470u64, 8237201598254184039u64, 7081797382406203676u64,
    13073212399367347693u64, 954154221418157482u64, 7830612107120387299u64, 18147635084871637224u64,
    1840681005446199497u64, 13141277375217889878u64, 13669558043930772255u64, 886700413608308084u64,
    10124265950174710117u64, 5395502293452243394u64, 8606305734465506587u64, 3806936956844765888u64,
    14021527272032103361u64, 1821971500311195630u64, 11854653769098231511u64, 9879077364298544332u64,
    10927568107424791517u64, 5533906164371892442u64, 11937075830805255251u64, 2788047926441475992u64,
    14475305065057310137u64, 13501024664328984710u64, 16019499823089027471u64, 9356607147890974500u64,
    16674714009792435541u64, 15038800478310050546u64, 7539086379904440971u64, 14199777216733978480u64,
];

/// Keys of a white rook on each square.
pub const KEYS_WHITE_ROOK: [u64; 64] = [
    8492860841172342449u64, 10711211266432945182u64, 751113149853057863u64, 1631698958142049404u64,
    15608633497291077069u64, 7721461503909898250u64, 16722396734479728579u64, 4175021602710073928u64,
    3155318692566404777u64, 2610200174576757430u64, 1364946553417239551u64, 6338771138782731476u64,
    15515739345853136197u64, 16631474662644088866u64, 16927241051697341435u64, 14551301184821794848u64,
    13946971736435727777u64, 5087500255961748558u64, 7612045440873087927u64, 6435588670502842412u64,
    2379137723941637053u64, 16022816069506339642u64, 2066853755937990451u64, 11089663037485330680u64,
    17882247119797822361u64, 11740666125875488998u64, 13936345177973082735u64, 16319106712623982212u64,
    16396260443489255733u64, 3285952725877571922u64, 6457909994947586411u64, 6646188391834574032u64,
    7605846043258060945u64, 13097809255660914814u64, 8833613689752125479u64, 12647487661459267548u64,
    138087969692908973u64, 4308175480513784426u64, 243133576558234275u64, 17175629335436458920u64,
    17752662612840518793u64, 1381089587026334486u64, 297278618442351839u64, 11313334569930374196u64,
    18135783029731942693u64, 12578459763065745026u64, 10766738898114407131u64, 4874981124331629952u64,
    9189651797479178113u64, 16282453098323355822u64, 4487269885699881111u64, 16361702943795944332u64,
    8951868225995459485u64, 4642872734996999578u64, 6841605743618746899u64, 8508217924647490136u64,
    12327746770169782649u64, 1201008686148430150u64, 15417570996484569935u64, 17445601018081074660u64,
    9613811511465778453u64, 9737605111075833778u64, 17505983883069401163u64, 18205196957672131120u64,
];

/// Keys of a black rook on each square.
pub const KEYS_BLACK_ROOK: [u64; 64] = [
    2299942313706543729u64, 10358091388510860510u64, 10234338005744823559u64, 4465756792376812348u64,
    7864661252499322253u64, 3274468314929913034u64, 3204033506069546371u64, 12011600936839902472u64,
    12971988645624318569u64, 10053502781429214070u64, 297650926163422655u64, 9159854078111845268u64,
    12396171035903620357u64, 16754666319096057058u64, 1826759122694726075u64, 2777077528154600160u64,
    7030963527103467873u64, 1443756313915616526u64, 4909131262369439095u64, 5053573176499091180u64,
    9854492193715796861u64, 18163093589030107130u64, 6382848499740581107u64, 11484202913330144184u64,
    3735252200227147609u64, 8555170088733497766u64, 735594859664677935u64, 8522130163349308740u64,
    4022471194827188469u64, 12258861445401214482u64, 17395056325590226731u64, 11917363981801154448u64,
    7587085742981719121u64, 248441063384977726u64, 721072537178687975u64, 1988626020202223260u64,
    11144663487871835501u64, 15412068409047383850u64, 16646658154981601379u64, 12955559532394978920u64,
    18427187338970329161u64, 6697007204262310870u64, 10457573430691530399u64, 11915440025413716724u64,
    10883408249826605285u64, 2629795268692794178u64, 3004556031223744667u64, 1026035298857756736u64,
    11905285141317964609u64, 1724223335632920942u64, 269301940714811991u64, 17574675938718909004u64,
    14132369709695900509u64, 13772551010400268890u64, 7316071696951754707u64, 2260525143579747608u64,
    14432856943402888505u64, 52859161624918534u64, 11055478626346347791u64, 16292950499378420900u64,
    9629449617200293077u64, 8012817602990679154u64, 13391681350578763275u64, 10408486681666860272u64,
];

/// Keys of a white queen on each square.
pub const KEYS_WHITE_QUEEN: [u64; 64] = [
    14291415830379060785u64, 17179331801843686814u64, 8306388063925065415u64, 12001298924478069244u64,
    18286676243650573645u64, 16489839522201620874u64, 14419462762803612483u64, 1249899647825475528u64,
    10018844269002933801u64, 6740412113630407734u64, 2217085100866834303u64, 4147136358561233492u64,
    54990728187342021u64, 6530540970012268962u64, 12778469427594927995u64, 5138939575812918688u64,
    18085281686589359393u64, 11066293512539571662u64, 5014939527574959927u64, 4670851674239565228u64,
    15755469984188885821u64, 17583538556332088506u64, 7804679889523200691u64, 422158233908958840u64,
    10870469916968532761u64, 10399587587171895910u64, 18087515233037889007u64, 5331158367688926212u64,
    740554070555578549u64, 9352690035191970514u64, 18072923438381221099u64, 9279445819527967312u64,
    1251663079636142097u64, 1895692900527364606u64, 9493729104346108839u64, 12398347084420320604u64,
    603873842459868461u64, 12488574643838931946u64, 17934521878097548835u64, 1322798894585020712u64,
    12660037600983911433u64, 10314263116942382230u64, 13094033069200214111u64, 12873259443517331892u64,
    5483658773177815205u64, 9574019024310405122u64, 1033459061473732187u64, 15833387765950751488u64,
    6890256415761606401u64, 5056555915539569198u64, 1600693351586409495u64, 2819788927008844044u64,
    16740129185246030621u64, 18330040109032077082u64, 1863731144304317843u64, 13298306718176704472u64,
    13850698484635908345u64, 5846497161291238086u64, 9083318450131050191u64, 10219445498496490340u64,
    472850652875484309u64, 14907865749414347058u64, 5778517448330838987u64, 17834931239536123824u64,
];

/// Keys of a black queen on each square.
pub const KEYS_BLACK_QUEEN: [u64; 64] = [
    8420321250940166641u64, 3179188362340697694u64, 7331837889730920583u64, 3753819689790623932u64,
    8868682784926168333u64, 12895220188319319626u64, 12924605652898795779u64, 5093053358276164232u64,
    7506143586433417705u64, 5254216207189519606u64, 9566348963761058111u64, 9581855550338509076u64,
    18170147982974133381u64, 2595917075858941538u64, 9957689842928426299u64, 10465298492891457632u64,
    9747427841549891809u64, 5455408948401331854u64, 7369037505380716791u64, 3738317998035436652u64,
    5757237248506485501u64, 13232199253160657274u64, 823768981286963315u64, 1307147908711500088u64,
    17190807961537226457u64, 429750817245068070u64, 393931885339901871u64, 5163082947951280836u64,
    6662904441018382453u64, 9641779115156027282u64, 554696135026324139u64, 2884591215361604880u64,
    3093444086903909329u64, 11490521044434805438u64, 13386620815688932711u64, 14249615803208385564u64,
    15476769095639948525u64, 6596516102084061354u64, 10953582070056205283u64, 4497945851503223784u64,
    909528102218426313u64, 11721238072336086358u64, 5150533142711912991u64, 1154512778341738612u64,
    2521866288603129957u64, 12402113542538654914u64, 15825560291893593115u64, 7043266460634078656u64,
    17825725873450826433u64, 4277755549210743534u64, 1712036256448832983u64, 12410951252503498700u64,
    17595667556076223197u64, 7535561119962086362u64, 10309468286003522387u64, 10518158098887461528u64,
    330322400502482105u64, 9189023460582202246u64, 8114490636740055183u64, 8670929712421902884u64,
    1304239627050939477u64, 5776044325558885874u64, 4086177335787606411u64, 4278137691710442096u64,
];

/// Keys of a white king on each square.
pub const KEYS_WHITE_KING: [u64; 64] = [
    4312623297299129777u64, 13922504870733213470u64, 4304179685430520391u64, 47376178289993596u64,
    11707090052706645197u64, 13204687269488786186u64, 489160980588238531u64, 6980323308034145608u64,
    16385685245347134889u64, 15953926906963291574u64, 17164172256361845503u64, 4492632386683197396u64,
    9283218113027775557u64, 13715237947141927714u64, 186149874339863291u64, 6810200024106533664u64,
    10808822948297665697u64, 15661801800718022478u64, 9863641469137922743u64, 7905836231327894316u64,
    7270782973324167869u64, 9239690275618596410u64, 6860349505153662515u64, 2183460726193519608u64,
    12754007416066713u64, 6635759504965790694u64, 3745493846964834671u64, 13356850851541688708u64,
    13396056372520312885u64, 9275604467388658770u64, 6185675521509679211u64, 10089834228263454672u64,
    775611911480807313u64, 16382495344291785598u64, 10089828506868885287u64, 10112381814216047324u64,
    17117498940066561197u64, 9603583395384343914u64, 15114861483759591843u64, 18252645728325535400u64,
    2740707212750455689u64, 7207214427737691670u64, 6538613154331937759u64, 14460818973291214644u64,
    14171562093907263525u64, 7062089074233581954u64, 3634275155053339099u64, 13230165809893136512u64,
    18365168169222901377u64, 15811031996180401070u64, 14770151784825642903u64, 16189886769391056524u64,
    3934416818882513565u64, 12306223421511778458u64, 6437273855680758035u64, 8930792707296812376u64,
    12605236549050568825u64, 4464481289540594758u64, 9027636766055285327u64, 16668038012185794788u64,
    4314769746960923669u64, 8348912631299635890u64, 3627104613894610763u64, 18172231251577271600u64,
];

/// Keys of a black king on each square.
pub const KEYS_BLACK_KING: [u64; 64] = [
    18021808424773544305u64, 12299301285121824734u64, 3524105758271493127u64, 16386156129256160828u64,
    947409495715329165u64, 3246718310332477386u64, 12349182774951353475u64, 921163878737248264u64,
    10194658417627494761u64, 4411930493383143030u64, 5558280748776322239u64, 16881786534130239124u64,
    7854040341277168645u64, 1749339148108546018u64, 14010222987835988155u64, 14560062434439519712u64,
    6365674521334587489u64, 7937403369686421518u64, 14104491488641713271u64, 9893805418045198828u64,
    4809506491685763709u64, 12563120260379806458u64, 12380910286650176499u64, 11432875413589716664u64,
    3725557924141088345u64, 1545929624002763942u64, 17732387918481810223u64, 14213717911066230852u64,
    8740593183889065973u64, 3946038821491798290u64, 2954479647778459179u64, 6994477853535802000u64,
    14596455502742106961u64, 6763297994828428350u64, 6058991119309861095u64, 7279262989368226204u64,
    584969532565806189u64, 6275062459473318442u64, 11397299329221314403u64, 14757003430062205288u64,
    14548699199926296393u64, 7422342930775570134u64, 14078118301485043103u64, 10460955904028984820u64,
    13035238719563519973u64, 12784452837483679298u64, 4618889793533001627u64, 11507062088817054528u64,
    12403255298834702913u64, 10357099204494967918u64, 2210531445806438743u64, 6332320162439699788u64,
    17488365431429323357u64, 10792156906629334362u64, 5934530660452538067u64, 6250705254033502232u64,
    11435968697104325689u64, 16860583043905813766u64, 14974303150106899471u64, 448066385497348004u64,
    2472724458842899413u64, 14237259705048864626u64, 11991778450083228939u64, 3938409679331811312u64,
];

/// Key of black to move.
pub const KEY_BLACK_TO_MOVE: u64 = 10481751937630924081u64;

/// Keys of the castling rights, by rights bits.
pub const KEYS_CASTLING: [u64; 16] = [
    9498195026008211614u64, 1180645471951420871u64, 6625804658909435132u64, 8912113022772081741u64,
    2526601569472193674u64, 12058388314491740739u64, 7738134972750332616u64, 8960522730458002729u64,
    10542897987037474614u64, 1645581978580588159u64, 12813946945751119188u64, 14399392796001127365u64,
    3823457319014370466u64, 14054158258615654011u64, 3776723034361067680u64, 17392862670204212257u64,
];

/// Keys of the en passant file.
pub const KEYS_EN_PASSANT: [u64; 8] = [
    16560534292363962574u64, 2622111474200452663u64, 14851291616634280108u64, 18323553693139642941u64,
    3801724786939080634u64, 17621722347654392243u64, 11567617134540136824u64, 18100437939524397593u64,
];

/// The key of a piece standing on square `sq` (0-63).
pub open spec fn piece_key(p: Piece, sq: nat) -> u64 {
    match (p.piece_type, p.color) {
        (PieceType::Pawn, Color::White) => KEYS_WHITE_PAWN@[sq as int],
        (PieceType::Pawn, Color::Black) => KEYS_BLACK_PAWN@[sq as int],
        (PieceType::Knight, Color::White) => KEYS_WHITE_KNIGHT@[sq as int],
        (PieceType::Knight, Color::Black) => KEYS_BLACK_KNIGHT@[sq as int],
        (PieceType::Bishop, Color::White) => KEYS_WHITE_BISHOP@[sq as int],
        (PieceType::Bishop, Color::Black) => KEYS_BLACK_BISHOP@[sq as int],
        (PieceType::Rook, Color::White) => KEYS_WHITE_ROOK@[sq as int],
        (PieceType::Rook, Color::Black) => KEYS_BLACK_ROOK@[sq as int],
        (PieceType::Queen, Color::White) => KEYS_WHITE_QUEEN@[sq as int],
        (PieceType::Queen, Color::Black) => KEYS_BLACK_QUEEN@[sq as int],
        (PieceType::King, Color::White) => KEYS_WHITE_KING@[sq as int],
        (PieceType::King, Color::Black) => KEYS_BLACK_KING@[sq as int],
    }
}

/// The key of the castling rights `bits` (0-15).
pub open spec fn castling_key(bits: u8) -> u64 {
    KEYS_CASTLING@[bits as int]
}

/// The key of an en passant square (by its file), zero when there is none.
pub open spec fn ep_key(ep: Option<Square>) -> u64 {
    match ep {
        Some(s) => KEYS_EN_PASSANT@[file_of(s@) as int],
        None => 0,
    }
}

/// The key of a piece on a square.
pub fn piece_key_of(p: Piece, square: Square) -> (r: u64)
    ensures
        r == piece_key(p, square@),
{
    let s = square.index() as usize;
    match (p.piece_type, p.color) {
        (PieceType::Pawn, Color::White) => KEYS_WHITE_PAWN[s],
        (PieceType::Pawn, Color::Black) => KEYS_BLACK_PAWN[s],
        (PieceType::Knight, Color::White) => KEYS_WHITE_KNIGHT[s],
        (PieceType::Knight, Color::Black) => KEYS_BLACK_KNIGHT[s],
        (PieceType::Bishop, Color::White) => KEYS_WHITE_BISHOP[s],
        (PieceType::Bishop, Color::Black) => KEYS_BLACK_BISHOP[s],
        (PieceType::Rook, Color::White) => KEYS_WHITE_ROOK[s],
        (PieceType::Rook, Color::Black) => KEYS_BLACK_ROOK[s],
        (PieceType::Queen, Color::White) => KEYS_WHITE_QUEEN[s],
        (PieceType::Queen, Color::Black) => KEYS_BLACK_QUEEN[s],
        (PieceType::King, Color::White) => KEYS_WHITE_KING[s],
        (PieceType::King, Color::Black) => KEYS_BLACK_KING[s],
    }
}

/// Update a hash for a piece added to or removed from a square.
pub fn hash_piece(hash: u64, piece: Piece, square: Square) -> (r: u64)
    ensures
        r == hash ^ piece_key(piece, square@),
{
    hash ^ piece_key_of(piece, square)
}

/// Update a hash for a change of the side to move.
pub fn hash_side_to_move(hash: u64) -> (r: u64)
    ensures
        r == hash ^ KEY_BLACK_TO_MOVE,
{
    hash ^ KEY_BLACK_TO_MOVE
}

/// Update a hash for a change of castling rights.
pub fn hash_castling(hash: u64, old_rights: u8, new_rights: u8) -> (r: u64)
    requires
        old_rights < 16,
        new_rights < 16,
    ensures
        r == hash ^ castling_key(old_rights) ^ castling_key(new_rights),
{
    hash ^ KEYS_CASTLING[old_rights as usize] ^ KEYS_CASTLING[new_rights as usize]
}

/// Update a hash for a change of the en passant square.
pub fn hash_en_passant(hash: u64, old_ep: Option<Square>, new_ep: Option<Square>) -> (r: u64)
    ensures
        r == hash ^ ep_key(old_ep) ^ ep_key(new_ep),
{
    let mut h = hash;
    match old_ep {
        Some(sq) => {
            h = h ^ KEYS_EN_PASSANT[sq.file() as usize];
        },
        None => {
            proof { lemma_word_identities(); }
        },
    }
    let ghost h1 = h;
    match new_ep {
        Some(sq) => {
            h = h ^ KEYS_EN_PASSANT[sq.file() as usize];
        },
        None => {
            proof { lemma_word_identities(); }
        },
    }
    h
}

/// The key of what stands on a square: zero when it is empty.
pub open spec fn square_key(p: Option<Piece>, sq: nat) -> u64 {
    match p {
        Some(q) => piece_key(q, sq),
        None => 0,
    }
}

/// The keys of the pieces on the first `n` squares of a placement, combined.
pub open spec fn placement_hash(mb: Seq<Option<Piece>>, n: nat) -> u64
    decreases n,
{
    if n == 0 {
        0
    } else {
        placement_hash(mb, (n - 1) as nat) ^ square_key(mb[n - 1], (n - 1) as nat)
    }
}

/// The hash of a position computed from scratch: its pieces, the side to
/// move, the castling rights and the en passant file.
pub open spec fn full_hash(b: Board) -> u64 {
    let side_key: u64 = if b.side() == Color::Black { KEY_BLACK_TO_MOVE } else { 0 };
    placement_hash(b.mailbox(), 64) ^ side_key ^ castling_key(b.rights()) ^ ep_key(b.ep())
}

/// Compute the hash of a position from scratch.
pub fn zobrist_hash(board: &Board) -> (r: u64)
    ensures
        r == full_hash(*board),
{
    let mut hash: u64 = 0;
    let squares = Square::all();
    let mut i: usize = 0;
    proof {
        board.lemma_mailbox();
    }
    while i < 64
        invariant
            i <= 64,
            forall|j: int| 0 <= j < 64 ==> (#[trigger] squares@[j])@ == j,
            board.mailbox().len() == 64,
            forall|j: int| 0 <= j < 64 ==> #[trigger] board.mailbox()[j] == board.piece_on(j as nat),
            hash == placement_hash(board.mailbox(), i as nat),
        decreases 64 - i,
    {
        let square = squares[i];
        match board.piece_at(square) {
            Some(piece) => {
                hash = hash ^ piece_key_of(piece, square);
            },
            None => {
                proof { lemma_word_identities(); }
            },
        }
        i += 1;
    }
    let mut side_key: u64 = 0;
    if board.side_to_move() == Color::Black {
        side_key = KEY_BLACK_TO_MOVE;
    }
    hash = hash ^ side_key;
    let castling = board.castling();
    castling.bound();
    let bits = castling.bits();
    hash = hash ^ KEYS_CASTLING[bits as usize];
    let ep_part: u64 = match board.ep_square() {
        Some(ep) => KEYS_EN_PASSANT[ep.file() as usize],
        None => 0,
    };
    hash ^ ep_part
}

} // verus!
