//! Walk-through tests: they drive every
//! operation over a set of sample lines and print what comes out.

use tokensk::{Delimiters, EscSeqMap, Flags, TStr, TStrX};

const MTAG: &str = "TEST:TestLib";

fn create() {
    let mtag = format!("{}:TestCreate", MTAG);
    let mut str1 = TStr {
        theStr: "A direct string string",
        trimmedPrefixCnt: 0,
        trimmedSuffixCnt: 0,
        escSeqMap: EscSeqMap::new(),
        flags: Flags::default(),
        delims: Delimiters::default(),
    };
    let thestring = "  A string 21string ".to_string();
    let mut str2 = TStr::from_str(&thestring, false);
    let mut str3 = TStr::from_str(" A str 12string  ", false);
    println!("{}:Created TStrs: {:?}, {:?}, {:?}", mtag, str1, str2, str3);
    println!(
        "{}:Str1:p{},s{}:{}",
        mtag,
        str1.trimmed_prefix_cnt(),
        str1.trimmed_suffix_cnt(),
        str1.the_str()
    );
    println!(
        "{}:Str2:p{},s{}:{}",
        mtag,
        str2.trimmed_prefix_cnt(),
        str2.trimmed_suffix_cnt(),
        str2.the_str()
    );
    println!(
        "{}:Str3:p{},s{}:{}",
        mtag,
        str3.trimmed_prefix_cnt(),
        str3.trimmed_suffix_cnt(),
        str3.the_str()
    );
}

fn create_raw() {
    let mtag = format!("{}:TestCreateRaw", MTAG);
    let thestring = "  A string 21string ".to_string();
    let mut str2 = TStr::from_str(&thestring, false);
    let mut str3 = TStr::from_str(" A str 12string  ", false);
    println!(
        "{}:Str2:{}:p{},s{}",
        mtag,
        str2.the_str(),
        str2.trimmed_prefix_cnt_raw(),
        str2.trimmed_suffix_cnt_raw()
    );
    println!(
        "{}:Str3:{}:p{},s{}",
        mtag,
        str3.the_str(),
        str3.trimmed_prefix_cnt_raw(),
        str3.trimmed_suffix_cnt_raw()
    );
    str2.trim();
    str3.trim();
    println!(
        "{}:Str2:{}:p{},s{}",
        mtag,
        str2.the_str(),
        str2.trimmed_prefix_cnt_raw(),
        str2.trimmed_suffix_cnt_raw()
    );
    println!(
        "{}:Str3:{}:p{},s{}",
        mtag,
        str3.the_str(),
        str3.trimmed_prefix_cnt_raw(),
        str3.trimmed_suffix_cnt_raw()
    );
}

fn nexttoken_ex(testlines: Vec<&str>, dlimdef: char) {
    let mtag = format!("{}:TestNextToken", MTAG);
    println!("\n\n\n\n{}: **** Lets test nexttoken [{}] ****\n", mtag, dlimdef);
    let mut tline = TStr::from_str("", true);
    for line in testlines {
        tline.set_str(line, false);
        println!("{}:Line:[{}]", mtag, line);
        while tline.remaining_len() > 0 {
            let gottok = tline.nexttok(dlimdef, true);
            if gottok.is_err() {
                println!("ERRR:{}:{:?}", mtag, gottok.unwrap_err());
            } else {
                let gottok = gottok.unwrap();
                println!("\ttok[{}]; rem[{}]", gottok, tline.the_str());
            }
        }
        // use set_str and tokens_vec to rescan into a vector
        tline.set_str(line, false);
        let vtoks = tline.tokens_vec(dlimdef, true, true);
        if vtoks.is_err() {
            println!("ERRR:{}:FullSet:{:?}", mtag, vtoks.unwrap_err());
        } else {
            println!("\tFullSet:{:#?}", vtoks.unwrap());
        }
    }
}

fn peel_bracket() {
    let mut tstr = TStr::from_str("testbracket( 123, abc, \" msg inside bracket\")", false);
    let prefix = tstr.peel_bracket('(').unwrap();
    println!("TEST:PeelBracket:prefix[{}], contents[{}]", prefix, tstr.the_str());
}

fn peel_string() {
    let tstrx = TStrX::new();
    let delim = '"';
    let tstr = tstrx.from_str("   \"A string with double quote at one end  ", false);
    let mut rstr = tstr.clone();
    let gotr = rstr.peel_string(delim);
    if gotr.is_err() {
        println!(
            "TEST:PeelString:[{}]:StringDelim:{}:Expected Failure:{:?}",
            tstr.the_str(),
            delim,
            gotr.unwrap_err()
        );
    } else {
        println!(
            "DBUG:PeelString:[{}]:StringDelim:{}:Unexpected Success:{}",
            tstr.the_str(),
            delim,
            rstr.the_str()
        );
    }
    let tstr = tstrx.from_str("              \"A string with double quote at both end\"  ", false);
    let mut rstr = tstr.clone();
    let gotr = rstr.peel_string(delim);
    if gotr.is_err() {
        println!(
            "TEST:PeelString:[{}]:StringDelim:{}:Unexpected Failure:{:?}",
            tstr.the_str(),
            delim,
            gotr.unwrap_err()
        );
    } else {
        println!(
            "DBUG:PeelString:[{}]:StringDelim:{}:Expected Success:{}",
            tstr.the_str(),
            delim,
            rstr.the_str()
        );
    }
}

fn splitn_ex(instr: &str, splitn: usize, dlimdef: char) {
    let mut tstr = TStr::from_str(instr, false);
    let vstrs = tstr.splitn(splitn, dlimdef).unwrap();
    println!("TEST:SplitN:{}:{}-[{}]:[{:?}]", instr, splitn, dlimdef, vstrs);
}

#[test]
fn test_create() {
    create();
    create_raw();
}

#[test]
fn test_nexttoken() {
    let testlines = vec![
        "what now",
        "   hello\n wold ",
        "  123 hello\\n    0x123",
        "  test( \"hello  world\", 123, what(0x123))",
        "\" lests chec\tk brackets within string what(yes, notnow,) \"",
        "\" lests chec\\tk brackets within string what(yes, notnow,) ending quote missing",
        "  test( \"hello  world\", 123, what((0x123)), extra bracket at begin",
        "  test( \"hello  world\", 123, what((0x123)))), extra bracket at end",
    ];
    nexttoken_ex(testlines.clone(), ' ');
    nexttoken_ex(testlines, ',');
    let testlines = vec![
        "line with spaces and, commas,yes   ,commas",
        " test(what,now with space,also)   ,,bit more text ",
    ];
    nexttoken_ex(testlines.clone(), ' ');
    nexttoken_ex(testlines.clone(), ',');
}

#[test]
fn test_peel() {
    peel_bracket();
    peel_string();
}

#[test]
fn test_first_nth_last() {
    let tstr = TStr::from_str("0123456789 Test extracting chars ॐ", false);
    println!(
        "TEST:FirstNthLast:{},{},{}",
        tstr.char_first().unwrap(),
        tstr.char_nth(8).unwrap(),
        tstr.char_last().unwrap()
    );
}

#[test]
fn test_splitn() {
    splitn_ex("one two three four five", 3, ' ');
    splitn_ex("oneXXtwoXthree four five", 3, 'X');
    splitn_ex("oneXXtwoXthree four five", 1, 'X');
    splitn_ex("one two three four five", 3, 'X');
}

#[test]
fn test_escseq() {
    let mut tstrx = TStrX::new();
    let sstr = r"test \v escseqs \\v also \t and \\t. Ok done";
    let mut tstr = tstrx.from_str(sstr, false);
    println!("TEST:EscSeq:Default:tstr[{:#?}]", tstr);
    let vtoks = tstr.tokens_vec(';', true, false);
    if vtoks.is_err() {
        println!("TEST:EscSeq:Default:WillFail:{:?}", vtoks.unwrap_err());
    } else {
        let vtoks = vtoks.unwrap();
        println!("TEST:EscSeq:Default:[{:#?}]", vtoks);
    }

    let estr = r"test W escseqs \\v also \n and \\t. Ok done";
    println!("TEST:EscSeq:In[{}], Out[{}]", sstr, estr);
    tstrx.escseqs_set('v', 'W');
    tstrx.escseqs_set('t', '\n');
    let mut tstr = tstrx.from_str(sstr, true);
    println!("TEST:EscSeq:Updated:tstr[{:#?}]", tstr);
    let vtoks = tstr.tokens_vec(';', true, false).unwrap();
    println!("TEST:EscSeq:Updated:Debug:[{:#?}]", vtoks);
    println!("TEST:EscSeq:Updated:String:[{}]", vtoks[0]);
}

#[test]
fn test_tstrx() {
    let sstr1 = "    test,   me  ";
    let sstr2 = "    test,   [me, hello world], [[save nature], [save earth]]  ";
    let mut tstrx = TStrX::new();
    tstrx.flags.trim = false;
    tstrx.flags.mainbracket_beginprefixed = false;
    tstrx.escseqs_set('v', 'W');
    tstrx.delims.bracket = ('[', ']');

    let mut tstr = tstrx.from_str(sstr1, true);
    println!("TEST:TStrX:Trimmed:[{:?}]", tstr.tokens_vec(',', true, false).unwrap());

    let mut tstr = tstrx.from_str(sstr2, false);
    println!("TEST:TStrX:UnTrimd:[{:?}]", tstr.tokens_vec(',', false, false).unwrap());
}

#[test]
fn test_string_subparts() {
    let sstr1 = r#""skey1":"svalue2","skey2":"svalue2", what else, "nothing new" another, "again again", the end"#;
    let mut tstrx = TStrX::new();
    tstrx.flags.string_canbe_asubpart = true;
    tstrx.flags.blocktok_dlimuser_endreqd = false;
    let mut tstr = tstrx.from_str(sstr1, true);
    let toks = tstr.tokens_vec(',', true, false).unwrap();
    println!("TEST:StringSubParts:>>{}<<:>>{:?}<<", sstr1, toks);
}

#[test]
fn test_multibrackets() {
    let sstr1 = r#""skey1":"svalue2","skey2":"svalue2", what else, ["nothing new" another], {"again again", the end}, "skey3":[{what now}, {again}]  , no more"#;
    let mut tstr = TStr::from_str(sstr1, true);
    tstr.delims.bracket = ('{', '}');
    tstr.delims.obracket = Some(('[', ']'));
    tstr.flags.string_canbe_asubpart = true;
    tstr.flags.blocktok_dlimuser_endreqd = false;
    let toks = tstr.tokens_vec(',', true, false).unwrap();
    println!("TEST:MultiBrackets:>>{}<<:>>{:#?}<<", sstr1, toks);
}
