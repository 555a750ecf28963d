pub mod prefix_word_pairs;
