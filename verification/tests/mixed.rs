use oxide::extractor::pre_processors::pre_processor::PreProcessor;
use oxide::extractor::pre_processors::ruby::Ruby;
use oxide::extractor::{Extracted, Extractor};

/// What is extracted from `input`: a `v` marks a CSS variable, a `c` a
/// candidate.
fn extracted(input: &[u8]) -> Vec<(char, Vec<u8>)> {
    let mut extractor = Extractor::new(input);
    extractor
        .extract()
        .iter()
        .map(|x| match x {
            Extracted::Candidate(bytes) => ('c', bytes.to_vec()),
            Extracted::CssVariable(bytes) => ('v', bytes.to_vec()),
        })
        .collect()
}

#[test]
fn extracts_from_mixed_inputs() {
    let cases: Vec<(&[u8], Vec<(char, &[u8])>)> = vec![
        (b"a):2 @{]\x5c).,\x22.{-#*}/", vec![]),
        (b"hover:", vec![]),
        (b"supports-(--x):*", vec![('v', b"--x")]),
        (b"/(--o)*a![\x0a", vec![('v', b"--o")]),
        (b"-(=:bg-[#0cc][&:hover]:: \x09-(", vec![('c', b"cc"), ('c', b"hover")]),
        (b":\x5c :: [color:red]bg-(--c,red): .", vec![('v', b"--c"), ('c', b"[color:red]"), ('c', b"bg-(--c,red)")]),
        (b"flex", vec![('c', b"flex")]),
        (b"bg-[#0cc]]#=!a[a:b]a:'", vec![('c', b"bg-[#0cc]")]),
        (b"@w_awa)!**=*%*]", vec![('c', b"w_awa")]),
        (b": !a\x22 :#flex", vec![('c', b"flex")]),
        (b"__}\x22{{[)%)]", vec![]),
        (b"\x09--%w!a*:/", vec![]),
        (b"[&:hover]:}", vec![('c', b"hover")]),
        (b"--b:", vec![('v', b"--b")]),
        (b"<[./[20%]\x00[color:red]\x5c[color:red]", vec![('c', b"[color:red]"), ('c', b"[color:red]")]),
        (b"!", vec![]),
        (b"w.\x222", vec![]),
        (b"--()(", vec![]),
        (b"'bg-[#0cc]-[x :x@", vec![('c', b"cc"), ('c', b"x")]),
        (b"--]\xc3\xa9a:-@", vec![]),
        (b"<data-[x=y]:]data-[x=y]:/[20%]{:\x5c ", vec![]),
        (b"@", vec![]),
        (b"<", vec![]),
        (b")[\x5c%{2*\x22{.-ab/]=*-", vec![]),
        (b"b, 2<", vec![]),
        (b"ab(\x22%)=#( )'.:", vec![]),
        (b"<*-*=b<", vec![]),
        (b"\xc3\xa9-[hover:=group-hover/name:supports-(--x):}", vec![('v', b"--x")]),
        (b"![", vec![]),
        (b"%:/w/ _#@%_w/(*w@}\x5c@", vec![]),
        (b":,#*@@", vec![]),
        (b"[2_(", vec![]),
        (b"][&:hover]:", vec![('c', b"hover")]),
        (b"\x22#\x5c,@_{=,]a}{@", vec![]),
        (b"*:**::  *:,", vec![]),
        (b"\x00(a:b)", vec![]),
        (b"%<<({*", vec![]),
        (b"flex-[[a:b]", vec![('c', b"[a:b]")]),
        (b"#/%\x5c!/)b#=#{w<", vec![]),
        (b"=]wa)w_, %-,%%.-/=b*", vec![('c', b"wa"), ('c', b"w_")]),
        (b"<![&:hover]:]", vec![('c', b"hover")]),
        (b"!*:/(--o)x,:", vec![('v', b"--o")]),
        (b"'2[@\x22", vec![]),
        (b"\xc3\xa9:flex*<\x22<", vec![('c', b"flex")]),
        (b"b:<{/[20%]\x5chover:", vec![]),
        (b"@[2#=a@", vec![]),
        (b",group-hover/name:*data-[x=y]:/(--o)", vec![('v', b"--o")]),
        (b"/)#2),[--2 )b]a<'*", vec![('v', b"--2")]),
        (b"/20_=\x5c", vec![]),
        (b"![--/[20%]!--@{\xc3\xa9", vec![]),
        (b"([color:red]", vec![('c', b"[color:red]")]),
        (b"<\x22w %.", vec![('c', b"w")]),
        (b"/[20%]*px-2.5)]", vec![('c', b"px-2.5")]),
        (b"<]=!<%-:['-=b@\x22 --:=", vec![]),
        (b".", vec![]),
        (b"x.", vec![]),
        (b"--/[20%]", vec![]),
        (b"flex: @\x5c %wa:%w", vec![('c', b"flex"), ('c', b"w")]),
        (b"_]", vec![]),
        (b")(a:b)bg-(--c,red)[<bg-(--c,red)@", vec![('v', b"--c"), ('v', b"--c")]),
        (b"=/w#.\x5c*w*{)_[<*#a", vec![]),
        (b"[a:b]data-[x=y]:bg-(--c,red)(", vec![('v', b"--c"), ('c', b"[a:b]")]),
        (b"(a:--[color:red]", vec![('c', b"[color:red]")]),
        (b"@#!()", vec![]),
        (b"].", vec![]),
        (b"(!)w\x5c2'\x5c)\x5c*-]", vec![]),
        (b"[a:b]\x00x(a:b)[&:hover]:--!", vec![('c', b"[a:b]"), ('c', b"hover")]),
        (b"[ 2a/</b'-*/.-2'}", vec![]),
        (b"%w.\x5c /(--o){", vec![('v', b"--o")]),
        (b"*", vec![]),
        (b"_hover:", vec![]),
        (b"/b: flex\x5c.", vec![('c', b"flex")]),
        (b"=[&:hover]:(\x0a[&:hover]:a", vec![('c', b"hover"), ('c', b"hover"), ('c', b"a")]),
        (b"%-.{b@<]'2#!!)/[{", vec![]),
        (b"'{]<].[= .*,)<", vec![]),
        (b"2#]-2%2*=-:}]'bw,.]", vec![('c', b"bw")]),
        (b"!%#-:w:@)", vec![]),
        (b"[<#=\x5ca{#@2_", vec![]),
        (b"<=\x5c,\x22*!!<(", vec![]),
        (b"\x222/'\x00\x5ca", vec![('c', b"a")]),
        (b"\x0abg-[#0cc]*a:[&:hover]:", vec![('c', b"bg-[#0cc]"), ('c', b"hover")]),
        (b",", vec![]),
        (b".ab\x222_./@ },(*'w)_\x22", vec![('c', b"ab")]),
        (b"b:", vec![]),
        (b"-({:\x22\x09", vec![]),
        (b"*b%2", vec![]),
        (b"-(\x0a/[20%]*[color:red]", vec![('c', b"*[color:red")]),
        (b"-]", vec![]),
        (b",-[bg-(--c,red)*:2", vec![('v', b"--c"), ('c', b"bg-(--c,red)")]),
        (b"/:-[!a", vec![('c', b"!a")]),
        (b"!!supports-(--x):", vec![('v', b"--x")]),
        (b"hover:2]: \x09[&:hover]:: ", vec![('c', b"hover")]),
        (b".a.@!agroup-hover/name:#{", vec![]),
        (b"],group-hover/name:px-2.5\x5c--px-2.5--", vec![('v', b"--px-2"), ('c', b"group-hover/name:px-2.5")]),
        (b"<\x22]'}-\x5c![w2..!", vec![]),
        (b"px-2.5%w\x5c a: :flexgroup-hover/name:", vec![('c', b"px-2.5")]),
        (b"\xc3\xa9", vec![]),
        (b"@[", vec![]),
        (b"(\xc3\xa9[&:hover]:\x00@", vec![('c', b"hover")]),
        (b"!\x5c_\x5c{@'2", vec![]),
        (b"b2.\x22]-# %\x22%,<,]-[_'\x5c", vec![]),
        (b"bg-[#0cc]group-hover/name:\x09--supports-(--x):px-2.5", vec![('v', b"--supports-"), ('v', b"--x"), ('c', b"bg-[#0cc]"), ('c', b"group-hover/name")]),
        (b"\x09\x09=\x22\x5c \xc3\xa9/(--o)/", vec![('v', b"--o")]),
        (b"': /[20%]*:a: ::", vec![]),
        (b"/[20%]2px-2.5-#'", vec![]),
        (b"a", vec![('c', b"a")]),
        (b"@[)a-_=\x5c", vec![]),
        (b"--/'\xc3\xa9:b:", vec![]),
        (b",.#/(--o)!a", vec![('v', b"--o")]),
        (b"-(", vec![]),
        (b"\x22}/:-%\x22.#]:-}(,!_:", vec![]),
        (b"={,_{2a{._#%-2)#:{", vec![]),
        (b"<(a@w=*_:b@", vec![]),
        (b"}#//20.", vec![]),
        (b"'2", vec![]),
        (b"</,a]/.(.\x22", vec![]),
        (b"_-(-[*[a:b],bg-(--c,red)", vec![('v', b"--c"), ('c', b"[a:b]"), ('c', b"bg-(--c,red)")]),
        (b", ", vec![]),
        (b"flexb:}!a:[a:b]\x5c", vec![('c', b"a:[a:b]")]),
        (b"/,_", vec![]),
        (b"\x5c \x00\x5c *", vec![]),
        (b"<]<)data-[x=y]:)", vec![]),
        (b"[color:red]b:bg-[#0cc]*2group-hover/name:", vec![('c', b"[color:red]"), ('c', b"b:bg-[#0cc]")]),
        (b"\x22.}/", vec![]),
        (b"(a:b)[a:px-2.5\x5c", vec![('c', b"a:px-2.5")]),
        (b"--2%w/%w", vec![('v', b"--2")]),
        (b" ", vec![]),
        (b"'%[ b@w\x22/2", vec![]),
        (b") (w,=(=", vec![]),
        (b"*[", vec![]),
        (b"\x5c\x0a", vec![]),
        (b")!(a:b)b:hover::", vec![]),
        (b"*,x{[color:red]", vec![('c', b"[color:red]")]),
        (b"![*:(a:b)a:/", vec![]),
        (b"b:flex(", vec![]),
        (b"-[2/[20%]%w--", vec![]),
        (b"%w[bg-(--c,red)\x00--/20", vec![('v', b"--c"), ('c', b"bg-(--c,red)")]),
        (b"(}')'", vec![]),
        (b"_b", vec![('c', b"b")]),
        (b"-", vec![]),
        (b"*:\x0a: hover:)!a", vec![('c', b"!a")]),
        (b",#//[20%]bg-[#0cc]", vec![('c', b"bg-[#0cc]")]),
        (b"[&:hover]: :a:data-[x=y]::supports-(--x):", vec![('v', b"--x"), ('c', b"hover")]),
        (b"=*}\x22w# %##:", vec![]),
        (b"/20=( :x%w-", vec![]),
        (b"[color:red]", vec![('c', b"[color:red]")]),
        (b"/[20%]bg-(--c,red):-2[a:b][", vec![('v', b"--c")]),
        (b"'\x5c\x5c /[20%]a:\x22", vec![]),
        (b"[a:b]![supports-(--x):-[group-hover/name:b:", vec![('v', b"--x"), ('c', b"-x")]),
        (b"bg-[#0cc] \xc3\xa9*:.", vec![('c', b"bg-[#0cc]")]),
        (b"]*-)b{  ([ a{{w'/", vec![]),
        (b".data-[x=y]:@![bg-[#0cc]_", vec![('c', b"bg-[#0cc]")]),
        (b")#%,b)() ,]}-'", vec![]),
        (b"\xc3\xa9*://\x22\x5c ", vec![]),
        (b"=[b,[{<\x22a:%@<@'[=", vec![]),
        (b"%_,,, -.)' , ]*b,[}<", vec![]),
        (b")--", vec![]),
        (b"b", vec![('c', b"b")]),
        (b".,-[", vec![]),
        (b"[a:b][a:b]-[\x00\x00ax", vec![('c', b"ax")]),
        (b"-(--", vec![]),
        (b"-(a:b)", vec![]),
        (b"]()2){=,][@[2:\x5cw]", vec![]),
        (b"2b%!/<\x22 /[_<", vec![]),
        (b"\x22]@_}]\x5cb,%2b[w(.b[", vec![]),
        (b"](a:b)*![\x5c *:_!", vec![]),
        (b" hover:[/[20%]%w--_b:", vec![('v', b"--_b")]),
        (b"]))w2))", vec![]),
        (b"\x00hover:/20 :", vec![]),
        (b"\x5c /:x:b:-(.", vec![]),
        (b"}#}([<w= ", vec![]),
        (b"2)", vec![]),
        (b" :\x0aa", vec![('c', b"a")]),
        (b"b/\x22b%%* (*.}('w<''", vec![]),
        (b"{ ]}]]w=a", vec![('c', b"a")]),
        (b":[='", vec![]),
        (b"--%w/(--o)/-[-[!a", vec![('v', b"--o"), ('c', b"!a")]),
        (b"# '(2!={(2", vec![]),
        (b"*:hover:#)[&:hover]:/(--o)", vec![('v', b"--o"), ('c', b"hover")]),
        (b"a/", vec![]),
        (b"._a)aw.w[<< ]-)", vec![]),
        (b"w*.", vec![]),
        (b"\x5c", vec![]),
        (b"w('-b-_(@{-", vec![]),
        (b"a'a\x22<=<[\x22-/-b_\x5c", vec![('c', b"-b_")]),
        (b"\x22.x@/[20%]", vec![]),
        (b"}=<", vec![]),
        (b"%b!=')-<}a", vec![('c', b"a")]),
        (b"{:bg-(--c,red)b:", vec![('v', b"--c"), ('c', b"bg-(--c,red)")]),
        (b":w) <]/[_\x22=} ", vec![]),
        (b"-#*:", vec![]),
        (b"-[@-[-(*:", vec![]),
        (b"#w", vec![('c', b"w")]),
        (b",/[20%],-(':hover:-[", vec![]),
        (b":[) /=\x22a[%a.\x222{'%", vec![]),
        (b"[", vec![]),
        (b"'<@{w},", vec![]),
        (b"{*<*)(%=\x5c%<\x22", vec![]),
        (b".!=<\x5c ]bw,b\x5c,}!", vec![('c', b"bw")]),
        (b"group-hover/name:a:}/x/[20%]bg-(--c,red)-", vec![('v', b"--c")]),
        (b"-\x22)a*=@=w@", vec![]),
        (b" w\x22", vec![]),
        (b"!-xx%w<", vec![('c', b"-xx")]),
        (b"/20flex[supports-(--x):", vec![('v', b"--x")]),
        (b"]@:aa\x22.-(,{2\x5c:=b", vec![('c', b"@:aa"), ('c', b"b")]),
        (b"/_-*<2<,<[{*(.", vec![]),
        (b"(a:b)(\x00/[20%][color:red]@: px-2.5", vec![('c', b"[color:red]"), ('c', b"px-2.5")]),
        (b"group-hover/name:*!a@data-[x=y]:", vec![]),
        (b"]!<<2!{!\x5c[@-%'}/_", vec![]),
        (b"-[#//[20%]group-hover/name:", vec![]),
        (b"\x5c !adata-[x=y]:![2", vec![]),
        (b"2/(--o)", vec![('v', b"--o"), ('c', b"-o")]),
        (b") ", vec![]),
        (b"=:(b:", vec![]),
        (b"(a:b)/(--o)", vec![('v', b"--o")]),
        (b"\x5c(b%-)=@\x5c)'}", vec![]),
        (b"-(data-[x=y]::[a:b](flex", vec![('c', b"flex")]),
        (b"/w#[!", vec![]),
        (b"[color:red]/", vec![('c', b"color:red")]),
        (b"\x5c .2\x0a:  bg-(--c,red)\x09", vec![('v', b"--c"), ('c', b"bg-(--c,red)")]),
        (b" :", vec![]),
        (b"abg-[#0cc]", vec![('c', b"abg-[#0cc]")]),
        (b"\x0a\x00", vec![]),
        (b"data-[x=y]:", vec![]),
        (b"w[)#_b__{{(''wa @\x22',", vec![('c', b"b__"), ('c', b"wa")]),
        (b"*[:px-2.5/(--o)", vec![('v', b"--o"), ('c', b"px-2.5/(--o)")]),
        (b"![\x5c-hover:flex", vec![('c', b"-hover:flex")]),
        (b"%w\x5c *-\x5c!]*:", vec![]),
        (b".,}", vec![]),
        (b"%whover:\x0aflexhover:-(\x00/(--o)", vec![('v', b"--o"), ('c', b"whover")]),
        (b"[&:hover]:/(--o)b:", vec![('v', b"--o"), ('c', b"hover")]),
        (b"/\x5c \xc3\xa9 ", vec![]),
        (b" hover:%w%w'", vec![]),
        (b"/[20%]![.#hover:", vec![]),
        (b"px-2.5-", vec![]),
        (b"data-[x=y]:x", vec![('c', b"data-[x=y]:x")]),
        (b"!-(\x22%w@\xc3\xa9hover:", vec![]),
        (b"b:*", vec![]),
        (b"\x09-(", vec![]),
        (b"*2\x22#*", vec![]),
    ];
    for (input, expected) in cases {
        let expected: Vec<(char, Vec<u8>)> = expected
            .iter()
            .map(|(kind, bytes)| (*kind, bytes.to_vec()))
            .collect();
        assert_eq!(extracted(input), expected, "input: {:?}", input);
    }
}

#[test]
fn rewrites_mixed_word_arrays() {
    let cases: Vec<(&[u8], &[u8])> = vec![
        (b"a\x5c %w(%W{%w ", b"a\x5c %w %W{%w "),
        (b"%W{", b"%W "),
        (b"\x5c", b"\x5c"),
        (b"w%w(})]", b"w%w } ]"),
        (b"}(%W{%W{\x5c  ]{\x5c ", b"}(%W %W{   ]{  "),
        (b"\x5c(( ))w%W", b"\x5c(( ))w%W"),
        (b"w%w(", b"w%w "),
        (b"  [%W{\x5c%w( ]]", b"  [%W \x5c%w( ]]"),
        (b" %wax%%w[", b" %wax%%w "),
        (b" %w[", b" %w "),
        (b"}\x5c %W%W", b"}\x5c %W%W"),
        (b"{}a%w\x5c ", b"{}a%w\x5c "),
        (b"%w%W{flex flex", b"%w%W{flex flex"),
        (b"%w(x[%w[", b"%w x[%w["),
        (b"\x5c}%W%W{%W{(]\x5c w", b"\x5c}%W%W{%W (]\x5c w"),
        (b"flexwflex%W%w)", b"flexwflex%W%w)"),
        (b" ax)", b" ax)"),
        (b"%w(x\x5c ", b"%w x  "),
        (b"%w}%w(flex}\x5c )%W", b"%w}%w flex}   %W"),
        (b"%w[%w[", b"%w %w["),
        (b" )%w}%Wflex", b" )%w}%Wflex"),
        (b"[wflex((\x5c ", b"[wflex((\x5c "),
        (b"flexx}%W{", b"flexx}%W "),
        (b"){\x5c [%w[()", b"){\x5c [%w ()"),
        (b" }%Wa\x5cw%W", b" }%Wa\x5cw%W"),
        (b"flex", b"flex"),
        (b"]a)w[}}", b"]a)w[}}"),
        (b"wxw%w[)w\x5c ", b"wxw%w )w  "),
        (b"%W()flex", b"%W  flex"),
        (b"w", b"w"),
        (b"%Wflex%wa", b"%Wflex%wa"),
        (b"%W}%w[(", b"%W}%w ("),
        (b"\x5c }flex a%w(", b"\x5c }flex a%w "),
        (b"%\x5c\x5c%w[%w[", b"%\x5c\x5c%w %w["),
        (b"a)\x5c ", b"a)\x5c "),
        (b"(%w[flex", b"(%w flex"),
        (b" \x5c", b" \x5c"),
        (b"(a)(]%w[(%w[", b"(a)(]%w (%w["),
        (b")]%W}\x5c", b")]%W}\x5c"),
        (b"w%w([%w[ %w[", b"w%w [%w[ %w["),
        (b"ww(%w%w%flex", b"ww(%w%w%flex"),
        (b"\x5c[\x5c w%w[%W", b"\x5c[\x5c w%w %W"),
        (b"\x5c ", b"\x5c "),
        (b")%w(%w(]}xflex(", b")%w %w(]}xflex("),
        (b"a[wwflex%w", b"a[wwflex%w"),
        (b"% x%W{%W{]%W{", b"% x%W %W{]%W{"),
        (b"}[%W](w", b"}[%W](w"),
        (b"(ww)x}%w[(%W", b"(ww)x}%w (%W"),
        (b"{(x}", b"{(x}"),
        (b"a", b"a"),
        (b"x%w(flexxx", b"x%w flexxx"),
        (b"(xx", b"(xx"),
        (b"(flexflex ", b"(flexflex "),
        (b"%w[{[%W\x5c )a", b"%w {[%W  )a"),
        (b"a\x5c%w(flex(x[{%", b"a\x5c%w flex(x[{%"),
        (b"%W[}%W{x%W\x5c xx", b"%W }%W{x%W  xx"),
        (b"[a{({%W{\x5c w", b"[a{({%W   w"),
        (b"x}\x5c%W[%w\x5c (%w", b"x}\x5c%W %w  (%w"),
        (b"flex%\x5c %", b"flex%\x5c %"),
        (b"x\x5c \x5c  }[]%flex", b"x\x5c \x5c  }[]%flex"),
        (b"[[%w([%w[x%W\x5c ", b"[[%w [%w[x%W  "),
        (b"])%w(", b"])%w "),
        (b"[{\x5c }\x5c (])%w", b"[{\x5c }\x5c (])%w"),
        (b"{%))%Wwflex%w", b"{%))%Wwflex%w"),
        (b"wwflexflex[", b"wwflexflex["),
        (b"[}", b"[}"),
        (b") ]{[)x\x5c flex", b") ]{[)x\x5c flex"),
        (b"%w(%w%", b"%w %w%"),
        (b"flex%w(\x5c", b"flex%w \x5c"),
        (b"x%flex\x5c )%W(%W{ ", b"x%flex\x5c )%W %W{ "),
        (b")", b")"),
        (b"[%w[%W{{%W%W%", b"[%w %W{{%W%W%"),
        (b"(%w{)%W", b"(%w )%W"),
        (b"%w[", b"%w "),
        (b"( %w)[", b"( %w)["),
        (b"%W{x[%w[%w(%W{(", b"%W x[%w[%w(%W{("),
        (b"(%w[flex{%W\x5c\x5c]}", b"(%w flex{%W\x5c\x5c]}"),
        (b"\x5c%W%w[", b"\x5c%W%w["),
        (b"%w(](", b"%w ]("),
        (b"%%w[%w{)", b"%%w %w{)"),
        (b"%W%w[%W{", b"%W%w[%W "),
        (b"%w[flex}))", b"%w flex}))"),
        (b"%w%w(\x5cflex", b"%w%w(\x5cflex"),
        (b" %w( flex{%W{a%W{{", b" %w  flex{%W{a%W{{"),
        (b"%w[flex%w[}%w[)%wflex]", b"%w flex%w[}%w[)%wflex "),
        (b"}%Ww\x5c%W{flex", b"}%Ww\x5c%W flex"),
        (b"%[%a\x5c%W{]", b"%[%a\x5c%W ]"),
        (b")flex%%", b")flex%%"),
        (b"x%w%]x(a", b"x%w%]x(a"),
        (b"}w[]flex}w{ ", b"}w[]flex}w{ "),
        (b"a%W]%", b"a%W]%"),
        (b"%x)%W{ (", b"%x)%W  ("),
        (b"%%w(\x5c ", b"%%w   "),
        (b"%w[a%W\x5c %w(%w(\x5c%", b"%w a%W  %w(%w(\x5c%"),
        (b"flex%w[", b"flex%w "),
        (b"%w(]%w(()( %w(}", b"%w ]%w(()( %w(}"),
        (b"()%)a", b"()%)a"),
        (b"}%Ww]\x5c ()\x5c ", b"}%Ww]\x5c ()\x5c "),
        (b"\x5c (]w%%wflex", b"\x5c (]w%%wflex"),
        (b" %W{[waa", b" %W [waa"),
        (b"%\x5c%W%w%Wax", b"%\x5c%W%w%Wax"),
        (b"{]\x5c \x5c [%W%W]", b"{]\x5c \x5c [%W%W]"),
        (b"x[flex\x5c%w(a[", b"x[flex\x5c%w a["),
        (b"\x5c ](a\x5c(a ", b"\x5c ](a\x5c(a "),
        (b"%w(x", b"%w x"),
        (b"%W{](\x5c{)", b"%W ](\x5c{)"),
        (b"flex[)xx%%%w(", b"flex[)xx%%%w "),
        (b"%%w{a{)", b"%%w a{)"),
        (b" (flex{]\x5c %W{w", b" (flex{]\x5c %W w"),
        (b"}", b"}"),
        (b"[flex%w[flex]", b"[flex%w flex "),
        (b"[{}%w((%w[", b"[{}%w (%w["),
        (b"]flex}%}%W{ flexflex", b"]flex}%}%W  flexflex"),
        (b"]}\x5c)%w[a%", b"]}\x5c)%w a%"),
        (b"%W{\x5c%w[)", b"%W \x5c%w[)"),
        (b"\x5c\x5cxx%w%", b"\x5c\x5cxx%w%"),
        (b"[%W\x5c ", b"[%W\x5c "),
        (b"])w])%w(", b"])w])%w "),
        (b"(\x5c %]x", b"(\x5c %]x"),
        (b"] flex", b"] flex"),
    ];
    for (input, expected) in cases {
        assert_eq!(Ruby.process(input), expected, "input: {:?}", input);
    }
}
