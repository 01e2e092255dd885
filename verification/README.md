# svg_gal

Writes words in Circular Gallifreyan as SVG drawings.

`src/` is the verified library: it parses words (lowercasing, replacing
two-letter sounds and repeated letters by their glyphs, counting letters,
vowels and numbers), looks up each character's mark and decoration, groups
letters into the containers drawn around a word, pairs the dash nodes of
a sentence, and joins the free dashes of a phrase two by two across
syllables. Each function states its result in its contract, and the
library's laws are proof functions next to the code they are about.

`app/` is the program around it: the command line, the floating-point
geometry of circles and angles, SVG output, and saving the file.
